use vstd::prelude::*;
use vstd::string::StrSliceExecFns;

use crate::font::{glyph, glyph_columns};
use crate::interfaces::{
    DisplayConfig, MessageEnvelope, PixelOrigin, RepeatMode, ScrollDirection, ValidationError,
};

verus! {

/// Row `y` and column `x` of a `width`-wide panel sit at this position of the
/// row-major pixel sequence.
pub open spec fn row_major_index(width: nat, x: int, y: int) -> int {
    y * width + x
}

/// Distinct pixels of a panel have distinct row-major positions, all below
/// the pixel count.
pub proof fn lemma_row_major_index(width: nat, height: nat, x1: int, y1: int, x2: int, y2: int)
    requires
        0 <= x1 < width,
        0 <= y1 < height,
        0 <= x2 < width,
        0 <= y2 < height,
    ensures
        0 <= row_major_index(width, x1, y1) < width * height,
        row_major_index(width, x1, y1) == row_major_index(width, x2, y2) ==> x1 == x2 && y1 == y2,
{
    assert(0 <= y1 * width + x1 < width * height) by (nonlinear_arith)
        requires
            0 <= x1 < width,
            0 <= y1 < height,
    ;
    if y1 < y2 {
        assert(y1 * width + x1 < y2 * width + x2) by (nonlinear_arith)
            requires
                0 <= x1 < width,
                0 <= x2,
                y1 < y2,
        ;
    } else if y2 < y1 {
        assert(y2 * width + x2 < y1 * width + x1) by (nonlinear_arith)
            requires
                0 <= x2 < width,
                0 <= x1,
                y2 < y1,
        ;
    }
}

/// Positions of earlier rows come before the first position of row `rows`.
proof fn lemma_row_prefix_bound(width: nat, rows: int, row: int, column: int)
    requires
        0 <= row < rows,
        0 <= column < width,
    ensures
        row_major_index(width, column, row) < rows * width,
{
    assert(row * width + column < rows * width) by (nonlinear_arith)
        requires
            0 <= row < rows,
            0 <= column < width,
    ;
}

/// One more row adds a row's worth of positions.
proof fn lemma_next_row(width: nat, height: nat, rows: int)
    ensures
        rows * width + width == (rows + 1) * width,
        height * width == width * height,
{
    assert(rows * width + width == (rows + 1) * width) by (nonlinear_arith);
    assert(height * width == width * height) by (nonlinear_arith);
}

/// The mathematical value of a [`FrameBuffer`]: its geometry, wiring and
/// pixels in row-major order.
pub ghost struct FrameModel {
    pub width: nat,
    pub height: nat,
    pub serpentine: bool,
    pub origin: PixelOrigin,
    pub pixels: Seq<u8>,
}

/// The value of the pixel in column `x` and row `y`.
pub open spec fn pixel(m: FrameModel, x: int, y: int) -> u8 {
    m.pixels[row_major_index(m.width, x, y)]
}

/// A frame whose pixel sequence holds one value per pixel of a panel that
/// a [`DisplayConfig`] can describe.
pub open spec fn frame_valid(m: FrameModel) -> bool {
    &&& m.pixels.len() == m.width * m.height
    &&& m.width * m.height <= usize::MAX
    &&& m.width <= 0xffff
    &&& m.height <= 0xffff
}

/// The chain starts in the right-hand column.
pub open spec fn starts_on_right(origin: PixelOrigin) -> bool {
    origin == PixelOrigin::TopRight || origin == PixelOrigin::BottomRight
}

/// The chain starts in the bottom row.
pub open spec fn starts_on_bottom(origin: PixelOrigin) -> bool {
    origin == PixelOrigin::BottomLeft || origin == PixelOrigin::BottomRight
}

/// The logical row that the chain visits as its `row`-th row.
pub open spec fn source_row(height: nat, origin: PixelOrigin, row: int) -> int {
    if starts_on_bottom(origin) {
        height - 1 - row
    } else {
        row
    }
}

/// The chain runs its `row`-th row from right to left.
pub open spec fn row_runs_right_to_left(origin: PixelOrigin, serpentine: bool, row: int) -> bool {
    starts_on_right(origin) != (serpentine && row % 2 == 1)
}

/// The logical column that the chain visits as the `column`-th pixel of its `row`-th row.
pub open spec fn source_column(
    width: nat,
    origin: PixelOrigin,
    serpentine: bool,
    row: int,
    column: int,
) -> int {
    if row_runs_right_to_left(origin, serpentine, row) {
        width - 1 - column
    } else {
        column
    }
}

/// `order` holds, at each position `row * width + column`, the pixel that the
/// chain visits there.
pub open spec fn is_chain_order(m: FrameModel, order: Seq<u8>) -> bool {
    &&& order.len() == m.width * m.height
    &&& forall|row: int, column: int|
        0 <= row < m.height && 0 <= column < m.width ==> #[trigger] order[row_major_index(
            m.width,
            column,
            row,
        )] == pixel(
            m,
            source_column(m.width, m.origin, m.serpentine, row, column),
            source_row(m.height, m.origin, row),
        )
}

/// `order` holds the rows top to bottom, the even rows left to right and the
/// odd rows right to left.
pub open spec fn is_serpentine_order(m: FrameModel, order: Seq<u8>) -> bool {
    &&& order.len() == m.width * m.height
    &&& forall|row: int, column: int|
        0 <= row < m.height && 0 <= column < m.width ==> #[trigger] order[row_major_index(
            m.width,
            column,
            row,
        )] == pixel(m, if row % 2 == 0 { column } else { m.width - 1 - column }, row)
}

/// A monochrome frame for an LED matrix, with the wiring of its LED chain.
#[derive(Debug, Clone, PartialEq, Eq)]
pub struct FrameBuffer {
    width: usize,
    height: usize,
    serpentine: bool,
    origin: PixelOrigin,
    pixels: Vec<u8>,
}

impl View for FrameBuffer {
    type V = FrameModel;

    closed spec fn view(&self) -> FrameModel {
        FrameModel {
            width: self.width as nat,
            height: self.height as nat,
            serpentine: self.serpentine,
            origin: self.origin,
            pixels: self.pixels@,
        }
    }
}

impl FrameBuffer {
    /// The frame's own consistency.
    pub closed spec fn wf(&self) -> bool {
        frame_valid(self@)
    }

    /// The state of a frame is valid.
    pub proof fn lemma_wf_frame_valid(&self)
        requires
            self.wf(),
        ensures
            frame_valid(self@),
    {
    }

    /// A dark frame for the panel that `config` describes.
    pub fn new(config: &DisplayConfig) -> (frame: Self)
        ensures
            frame.wf(),
            frame@.width == config.width,
            frame@.height == config.height,
            frame@.serpentine == config.serpentine,
            frame@.origin == config.origin,
            frame@.pixels == Seq::new((config.width * config.height) as nat, |i: int| 0u8),
    {
        let count = config.pixel_count();
        let mut pixels: Vec<u8> = Vec::new();
        let mut index: usize = 0;
        while index < count
            invariant
                index <= count,
                pixels@ == Seq::new(index as nat, |i: int| 0u8),
            decreases count - index,
        {
            pixels.push(0);
            index = index + 1;
            assert(pixels@ =~= Seq::new(index as nat, |i: int| 0u8));
        }
        FrameBuffer {
            width: config.width as usize,
            height: config.height as usize,
            serpentine: config.serpentine,
            origin: config.origin,
            pixels,
        }
    }

    /// Number of columns.
    pub fn width(&self) -> (width: usize)
        ensures
            width == self@.width,
    {
        self.width
    }

    /// Number of rows.
    pub fn height(&self) -> (height: usize)
        ensures
            height == self@.height,
    {
        self.height
    }

    /// Turns every pixel off.
    pub fn clear(&mut self)
        requires
            old(self).wf(),
        ensures
            final(self).wf(),
            final(self)@ == (FrameModel {
                pixels: Seq::new(old(self)@.pixels.len(), |i: int| 0u8),
                ..old(self)@
            }),
    {
        let count = self.pixels.len();
        let mut index: usize = 0;
        while index < count
            invariant
                count == self.pixels@.len(),
                index <= count,
                self.width == old(self).width,
                self.height == old(self).height,
                self.serpentine == old(self).serpentine,
                self.origin == old(self).origin,
                count == old(self).pixels@.len(),
                forall|i: int| 0 <= i < index ==> self.pixels@[i] == 0u8,
            decreases count - index,
        {
            self.pixels.set(index, 0);
            index = index + 1;
        }
        assert(self.pixels@ =~= Seq::new(old(self)@.pixels.len(), |i: int| 0u8));
    }

    /// Sets the pixel in column `x` and row `y` to `value`; coordinates
    /// outside the panel are ignored.
    pub fn set(&mut self, x: i32, y: i32, value: u8)
        requires
            old(self).wf(),
        ensures
            final(self).wf(),
            final(self)@.width == old(self)@.width,
            final(self)@.height == old(self)@.height,
            final(self)@.serpentine == old(self)@.serpentine,
            final(self)@.origin == old(self)@.origin,
            final(self)@.pixels == if 0 <= x < old(self)@.width && 0 <= y < old(self)@.height {
                old(self)@.pixels.update(row_major_index(old(self)@.width, x as int, y as int), value)
            } else {
                old(self)@.pixels
            },
    {
        if x < 0 || y < 0 {
            return;
        }
        let column = x as usize;
        let row = y as usize;
        if column < self.width && row < self.height {
            proof {
                lemma_row_major_index(
                    self.width as nat,
                    self.height as nat,
                    column as int,
                    row as int,
                    column as int,
                    row as int,
                );
            }
            self.pixels.set(row * self.width + column, value);
        }
    }

    /// The pixel in column `x` and row `y`, which must lie on the panel.
    pub fn get(&self, x: usize, y: usize) -> (value: u8)
        requires
            self.wf(),
            x < self@.width,
            y < self@.height,
        ensures
            value == pixel(self@, x as int, y as int),
    {
        proof {
            lemma_row_major_index(
                self.width as nat,
                self.height as nat,
                x as int,
                y as int,
                x as int,
                y as int,
            );
        }
        self.pixels[y * self.width + x]
    }

    /// The pixels rows top to bottom, the even rows (counting from zero) left
    /// to right and the odd rows right to left.
    pub fn serpentine(&self) -> (order: Vec<u8>)
        requires
            self.wf(),
        ensures
            is_serpentine_order(self@, order@),
    {
        let width = self.width;
        let height = self.height;
        let mut output: Vec<u8> = Vec::new();
        let mut y: usize = 0;
        while y < height
            invariant
                self.wf(),
                width == self@.width,
                height == self@.height,
                y <= height,
                output@.len() == y * width,
                forall|row: int, column: int|
                    0 <= row < y && 0 <= column < width ==> #[trigger] output@[row_major_index(
                        width as nat,
                        column,
                        row,
                    )] == pixel(self@, if row % 2 == 0 { column } else { width - 1 - column }, row),
            decreases height - y,
        {
            let mut column: usize = 0;
            while column < width
                invariant
                    self.wf(),
                    width == self@.width,
                    height == self@.height,
                    y < height,
                    column <= width,
                    output@.len() == y * width + column,
                    forall|row: int, c: int|
                        0 <= row < y && 0 <= c < width ==> #[trigger] output@[row_major_index(
                            width as nat,
                            c,
                            row,
                        )] == pixel(self@, if row % 2 == 0 { c } else { width - 1 - c }, row),
                    forall|c: int|
                        0 <= c < column ==> #[trigger] output@[row_major_index(width as nat, c, y as int)]
                            == pixel(self@, if y % 2 == 0 { c } else { width - 1 - c }, y as int),
                decreases width - column,
            {
                let x = if y % 2 == 0 {
                    column
                } else {
                    width - 1 - column
                };
                let value = self.get(x, y);
                let ghost before = output@;
                output.push(value);
                proof {
                    assert forall|row: int, c: int|
                        0 <= row < y && 0 <= c < width implies #[trigger] output@[row_major_index(
                        width as nat,
                        c,
                        row,
                    )] == pixel(self@, if row % 2 == 0 { c } else { width - 1 - c }, row) by {
                        lemma_row_prefix_bound(width as nat, y as int, row, c);
                        assert(output@[row_major_index(width as nat, c, row)] == before[row_major_index(
                            width as nat,
                            c,
                            row,
                        )]);
                    }
                }
                column = column + 1;
            }
            proof {
                lemma_next_row(width as nat, height as nat, y as int);
            }
            y = y + 1;
        }
        proof {
            lemma_next_row(width as nat, height as nat, 0);
        }
        output
    }

    /// The pixels in the order in which the LED chain visits them, given the
    /// corner at which it starts and whether it runs back and forth.
    pub fn device_order(&self) -> (order: Vec<u8>)
        requires
            self.wf(),
        ensures
            is_chain_order(self@, order@),
    {
        let width = self.width;
        let height = self.height;
        let starts_on_right = match self.origin {
            PixelOrigin::TopRight | PixelOrigin::BottomRight => true,
            _ => false,
        };
        let starts_on_bottom = match self.origin {
            PixelOrigin::BottomLeft | PixelOrigin::BottomRight => true,
            _ => false,
        };
        let mut output: Vec<u8> = Vec::new();
        let mut physical_row: usize = 0;
        while physical_row < height
            invariant
                self.wf(),
                width == self@.width,
                height == self@.height,
                starts_on_right == crate::render::starts_on_right(self@.origin),
                starts_on_bottom == crate::render::starts_on_bottom(self@.origin),
                physical_row <= height,
                output@.len() == physical_row * width,
                forall|row: int, column: int|
                    0 <= row < physical_row && 0 <= column < width ==> #[trigger] output@[row_major_index(
                        width as nat,
                        column,
                        row,
                    )] == pixel(
                        self@,
                        source_column(width as nat, self@.origin, self@.serpentine, row, column),
                        source_row(height as nat, self@.origin, row),
                    ),
            decreases height - physical_row,
        {
            let y = if starts_on_bottom {
                height - 1 - physical_row
            } else {
                physical_row
            };
            let row_starts_on_right = starts_on_right != (self.serpentine && physical_row % 2 == 1);
            let mut physical_column: usize = 0;
            while physical_column < width
                invariant
                    self.wf(),
                    width == self@.width,
                    height == self@.height,
                    physical_row < height,
                    y == source_row(height as nat, self@.origin, physical_row as int),
                    row_starts_on_right == row_runs_right_to_left(
                        self@.origin,
                        self@.serpentine,
                        physical_row as int,
                    ),
                    physical_column <= width,
                    output@.len() == physical_row * width + physical_column,
                    forall|row: int, column: int|
                        0 <= row < physical_row && 0 <= column < width ==> #[trigger] output@[row_major_index(
                            width as nat,
                            column,
                            row,
                        )] == pixel(
                            self@,
                            source_column(width as nat, self@.origin, self@.serpentine, row, column),
                            source_row(height as nat, self@.origin, row),
                        ),
                    forall|column: int|
                        0 <= column < physical_column ==> #[trigger] output@[row_major_index(
                            width as nat,
                            column,
                            physical_row as int,
                        )] == pixel(
                            self@,
                            source_column(
                                width as nat,
                                self@.origin,
                                self@.serpentine,
                                physical_row as int,
                                column,
                            ),
                            y as int,
                        ),
                decreases width - physical_column,
            {
                let x = if row_starts_on_right {
                    width - 1 - physical_column
                } else {
                    physical_column
                };
                let value = self.get(x, y);
                let ghost before = output@;
                output.push(value);
                proof {
                    assert forall|row: int, column: int|
                        0 <= row < physical_row && 0 <= column < width implies #[trigger] output@[row_major_index(
                        width as nat,
                        column,
                        row,
                    )] == pixel(
                        self@,
                        source_column(width as nat, self@.origin, self@.serpentine, row, column),
                        source_row(height as nat, self@.origin, row),
                    ) by {
                        lemma_row_prefix_bound(width as nat, physical_row as int, row, column);
                        assert(output@[row_major_index(width as nat, column, row)]
                            == before[row_major_index(width as nat, column, row)]);
                    }
                }
                physical_column = physical_column + 1;
            }
            proof {
                lemma_next_row(width as nat, height as nat, physical_row as int);
            }
            physical_row = physical_row + 1;
        }
        proof {
            lemma_next_row(width as nat, height as nat, 0);
        }
        output
    }

    /// The pixels in row-major order, top row first, each row left to right.
    pub fn row_major(&self) -> (pixels: &[u8])
        ensures
            pixels@ == self@.pixels,
    {
        self.pixels.as_slice()
    }
}

/// The row at which text starts: the glyphs are centred vertically, and sit
/// at the top of a panel shorter than a glyph.
pub open spec fn text_top_row(height: nat) -> int {
    if height >= 7 {
        (height - 7) / 2
    } else {
        0
    }
}

/// `columns` lights the pixel `dx` columns right of and `dy` rows below the
/// top-left corner of its glyph.
pub open spec fn glyph_pixel_on(columns: Seq<u8>, dx: int, dy: int) -> bool {
    &&& 0 <= dx < 5
    &&& 0 <= dy < 7
    &&& columns[dx] & (1u8 << (dy as u8)) != 0
}

/// The `index`-th glyph of `text`, drawn with its left column at
/// `6 * index - offset` and its top row at `top`, lights pixel (`x`, `y`).
pub open spec fn glyph_lights(text: Seq<char>, offset: int, top: int, index: int, x: int, y: int) -> bool {
    &&& 0 <= index < text.len()
    &&& glyph_pixel_on(glyph_columns(text[index]), x - (6 * index - offset), y - top)
}

/// One of the first `count` glyphs of `text` lights pixel (`x`, `y`).
pub open spec fn glyphs_light(
    text: Seq<char>,
    offset: int,
    top: int,
    count: int,
    x: int,
    y: int,
) -> bool {
    exists|index: int| 0 <= index < count && #[trigger] glyph_lights(text, offset, top, index, x, y)
}

/// The column `column` of glyph `index` of `text`, scrolled by `offset`, is
/// at an `i32` coordinate when it has a pixel to draw.
pub open spec fn glyph_column_fits(text: Seq<char>, offset: int, index: int, column: int) -> bool {
    glyph_columns(text[index])[column] != 0 ==> 6 * index - offset + column <= i32::MAX
}

/// Drawing `text` scrolled by `offset` pixels needs no coordinate beyond the
/// range of `i32`: the left edges of the glyphs, and the columns that have a
/// pixel to draw.
pub open spec fn text_fits_coordinates(text: Seq<char>, offset: int) -> bool {
    text.len() == 0 || {
        &&& offset > i32::MIN
        &&& 6 * (text.len() - 1) <= i32::MAX
        &&& 6 * (text.len() - 1) - offset <= i32::MAX
        &&& forall|index: int, column: int|
            0 <= index < text.len() && 0 <= column < 5 ==> #[trigger] glyph_column_fits(
                text,
                offset,
                index,
                column,
            )
    }
}

/// Lights, in `frame`, the pixels of the glyph `columns` whose top-left
/// corner is at (`left`, `top`).
fn draw_glyph(frame: &mut FrameBuffer, left: i32, top: i32, columns: [u8; 5])
    requires
        old(frame).wf(),
        forall|column: int| 0 <= column < 5 && columns@[column] != 0 ==> left + column <= i32::MAX,
        0 <= top <= 0xffff,
    ensures
        final(frame).wf(),
        final(frame)@.width == old(frame)@.width,
        final(frame)@.height == old(frame)@.height,
        final(frame)@.serpentine == old(frame)@.serpentine,
        final(frame)@.origin == old(frame)@.origin,
        forall|x: int, y: int|
            0 <= x < old(frame)@.width && 0 <= y < old(frame)@.height ==> #[trigger] pixel(
                final(frame)@,
                x,
                y,
            ) == if glyph_pixel_on(columns@, x - left, y - top) {
                255u8
            } else {
                pixel(old(frame)@, x, y)
            },
{
    let ghost start = frame@;
    let mut column_index: usize = 0;
    while column_index < 5
        invariant
            frame.wf(),
            frame@.width == start.width,
            frame@.height == start.height,
            frame@.serpentine == start.serpentine,
            frame@.origin == start.origin,
            frame_valid(start),
            forall|column: int|
                0 <= column < 5 && columns@[column] != 0 ==> left + column <= i32::MAX,
            0 <= top <= 0xffff,
            column_index <= 5,
            forall|x: int, y: int|
                0 <= x < start.width && 0 <= y < start.height ==> #[trigger] pixel(frame@, x, y) == if glyph_pixel_on(
                    columns@,
                    x - left,
                    y - top,
                ) && x - left < column_index {
                    255u8
                } else {
                    pixel(start, x, y)
                },
        decreases 5 - column_index,
    {
        let column = columns[column_index];
        let mut bit: u8 = 0;
        while bit < 7
            invariant
                frame.wf(),
                frame@.width == start.width,
                frame@.height == start.height,
                frame@.serpentine == start.serpentine,
                frame@.origin == start.origin,
                frame_valid(start),
                forall|column: int|
                    0 <= column < 5 && columns@[column] != 0 ==> left + column <= i32::MAX,
                0 <= top <= 0xffff,
                column_index < 5,
                column == columns@[column_index as int],
                bit <= 7,
                forall|x: int, y: int|
                    0 <= x < start.width && 0 <= y < start.height ==> #[trigger] pixel(frame@, x, y)
                        == if glyph_pixel_on(columns@, x - left, y - top) && (x - left
                        < column_index || (x - left == column_index && y - top < bit)) {
                        255u8
                    } else {
                        pixel(start, x, y)
                    },
            decreases 7 - bit,
        {
            if column & (1u8 << bit) != 0 {
                assert(column != 0) by (bit_vector)
                    requires
                        column & (1u8 << bit) != 0,
                ;
                let x0 = left + column_index as i32;
                let y0 = top + bit as i32;
                let ghost before = frame@;
                frame.set(x0, y0, 255);
                proof {
                    assert forall|x: int, y: int|
                        0 <= x < start.width && 0 <= y < start.height implies #[trigger] pixel(
                        frame@,
                        x,
                        y,
                    ) == if glyph_pixel_on(columns@, x - left, y - top) && (x - left < column_index
                        || (x - left == column_index && y - top < bit + 1)) {
                        255u8
                    } else {
                        pixel(start, x, y)
                    } by {
                        let before_cond = glyph_pixel_on(columns@, x - left, y - top) && (x - left
                            < column_index || (x - left == column_index && y - top < bit));
                        let after_cond = glyph_pixel_on(columns@, x - left, y - top) && (x - left
                            < column_index || (x - left == column_index && y - top < bit + 1));
                        assert(pixel(before, x, y) == if before_cond {
                            255u8
                        } else {
                            pixel(start, x, y)
                        });
                        if x == x0 && y == y0 {
                            assert(((y - top) as u8) == bit);
                            assert(columns@[x - left] == column);
                            assert(glyph_pixel_on(columns@, x - left, y - top));
                            assert(after_cond);
                            lemma_row_major_index(start.width, start.height, x, y, x, y);
                            assert(pixel(frame@, x, y) == 255u8);
                        } else {
                            assert(before_cond == after_cond);
                            if 0 <= x0 < start.width && 0 <= y0 < start.height {
                                lemma_row_major_index(
                                    start.width,
                                    start.height,
                                    x,
                                    y,
                                    x0 as int,
                                    y0 as int,
                                );
                            }
                            lemma_row_major_index(start.width, start.height, x, y, x, y);
                            let i = row_major_index(start.width, x, y);
                            assert(0 <= i < before.pixels.len());
                            if 0 <= x0 < start.width && 0 <= y0 < start.height {
                                let i0 = row_major_index(start.width, x0 as int, y0 as int);
                                lemma_row_major_index(
                                    start.width,
                                    start.height,
                                    x0 as int,
                                    y0 as int,
                                    x0 as int,
                                    y0 as int,
                                );
                                assert(i != i0);
                                assert(frame@.pixels == before.pixels.update(i0, 255u8));
                                assert(frame@.pixels[i] == before.pixels[i]);
                            } else {
                                assert(frame@.pixels == before.pixels);
                            }
                            assert(pixel(frame@, x, y) == pixel(before, x, y));
                        }
                    }
                }
            } else {
                proof {
                    assert forall|x: int, y: int|
                        0 <= x < start.width && 0 <= y < start.height implies #[trigger] pixel(
                        frame@,
                        x,
                        y,
                    ) == if glyph_pixel_on(columns@, x - left, y - top) && (x - left < column_index
                        || (x - left == column_index && y - top < bit + 1)) {
                        255u8
                    } else {
                        pixel(start, x, y)
                    } by {
                        let before_cond = glyph_pixel_on(columns@, x - left, y - top) && (x - left
                            < column_index || (x - left == column_index && y - top < bit));
                        let after_cond = glyph_pixel_on(columns@, x - left, y - top) && (x - left
                            < column_index || (x - left == column_index && y - top < bit + 1));
                        assert(pixel(frame@, x, y) == if before_cond {
                            255u8
                        } else {
                            pixel(start, x, y)
                        });
                        if x - left == column_index && y - top == bit {
                            assert(((y - top) as u8) == bit);
                            assert(columns@[x - left] == column);
                            assert(!(column & (1u8 << bit) != 0));
                            assert(!glyph_pixel_on(columns@, x - left, y - top));
                            assert(!after_cond);
                            assert(!before_cond);
                        } else {
                            assert(before_cond == after_cond);
                        }
                    }
                }
            }
            bit = bit + 1;
        }
        column_index = column_index + 1;
    }
}

/// Clears `frame` and draws `text` in the 5x7 font, one blank column between
/// glyphs, scrolled left by `content_offset` pixels and centred vertically;
/// what falls outside the panel is not drawn.
pub fn render_text_5x7(frame: &mut FrameBuffer, text: &str, content_offset: i32)
    requires
        old(frame).wf(),
        text_fits_coordinates(text@, content_offset as int),
    ensures
        final(frame).wf(),
        final(frame)@.width == old(frame)@.width,
        final(frame)@.height == old(frame)@.height,
        final(frame)@.serpentine == old(frame)@.serpentine,
        final(frame)@.origin == old(frame)@.origin,
        forall|x: int, y: int|
            0 <= x < old(frame)@.width && 0 <= y < old(frame)@.height ==> #[trigger] pixel(
                final(frame)@,
                x,
                y,
            ) == if glyphs_light(
                text@,
                content_offset as int,
                text_top_row(old(frame)@.height),
                text@.len() as int,
                x,
                y,
            ) {
                255u8
            } else {
                0u8
            },
        forall|index: int, dx: int, dy: int|
            0 <= index < text@.len() && #[trigger] glyph_pixel_on(
                glyph_columns(text@[index]),
                dx,
                dy,
            ) && 0 <= 6 * index - content_offset + dx < old(frame)@.width && 0 <= text_top_row(
                old(frame)@.height,
            ) + dy < old(frame)@.height ==> pixel(
                final(frame)@,
                6 * index - content_offset + dx,
                text_top_row(old(frame)@.height) + dy,
            ) == 255u8,
        forall|x: int, y: int|
            0 <= x < old(frame)@.width && 0 <= y < old(frame)@.height && (x + content_offset) % 6
                == 5 ==> #[trigger] pixel(final(frame)@, x, y) == 0u8,
{
    frame.clear();
    let ghost cleared = frame@;
    let height = frame.height();
    let y_origin: i32 = if height >= 7 {
        ((height - 7) / 2) as i32
    } else {
        0
    };
    let count = text.unicode_len();
    let mut glyph_index: usize = 0;
    assert forall|x: int, y: int|
        0 <= x < cleared.width && 0 <= y < cleared.height implies #[trigger] pixel(frame@, x, y)
            == 0u8 by {
        lemma_row_major_index(cleared.width, cleared.height, x, y, x, y);
    }
    while glyph_index < count
        invariant
            frame.wf(),
            frame@.width == cleared.width,
            frame@.height == cleared.height,
            frame@.serpentine == cleared.serpentine,
            frame@.origin == cleared.origin,
            cleared.pixels.len() == cleared.width * cleared.height,
            cleared.height <= 0xffff,
            forall|i: int| 0 <= i < cleared.pixels.len() ==> cleared.pixels[i] == 0u8,
            y_origin == text_top_row(cleared.height),
            count == text@.len(),
            text_fits_coordinates(text@, content_offset as int),
            glyph_index <= count,
            forall|x: int, y: int|
                0 <= x < cleared.width && 0 <= y < cleared.height ==> #[trigger] pixel(frame@, x, y)
                    == if glyphs_light(
                    text@,
                    content_offset as int,
                    y_origin as int,
                    glyph_index as int,
                    x,
                    y,
                ) {
                    255u8
                } else {
                    0u8
                },
        decreases count - glyph_index,
    {
        let character = text.get_char(glyph_index);
        let columns = glyph(character);
        let glyph_x = glyph_index as i32 * 6 - content_offset;
        proof {
            assert forall|column: int|
                0 <= column < 5 && columns@[column] != 0 implies glyph_x + column <= i32::MAX by {
                assert(glyph_column_fits(text@, content_offset as int, glyph_index as int, column));
            }
        }
        let ghost before = frame@;
        draw_glyph(frame, glyph_x, y_origin, columns);
        proof {
            assert forall|x: int, y: int|
                0 <= x < cleared.width && 0 <= y < cleared.height implies #[trigger] pixel(
                frame@,
                x,
                y,
            ) == if glyphs_light(
                text@,
                content_offset as int,
                y_origin as int,
                glyph_index + 1,
                x,
                y,
            ) {
                255u8
            } else {
                0u8
            } by {
                let g = glyph_index as int;
                if glyph_lights(text@, content_offset as int, y_origin as int, g, x, y) {
                    assert(glyphs_light(text@, content_offset as int, y_origin as int, g + 1, x, y));
                }
                if glyphs_light(text@, content_offset as int, y_origin as int, g, x, y) {
                    let i = choose|i: int|
                        0 <= i < g && #[trigger] glyph_lights(
                            text@,
                            content_offset as int,
                            y_origin as int,
                            i,
                            x,
                            y,
                        );
                    assert(glyphs_light(text@, content_offset as int, y_origin as int, g + 1, x, y));
                }
                if glyphs_light(text@, content_offset as int, y_origin as int, g + 1, x, y) {
                    let i = choose|i: int|
                        0 <= i < g + 1 && #[trigger] glyph_lights(
                            text@,
                            content_offset as int,
                            y_origin as int,
                            i,
                            x,
                            y,
                        );
                    if i < g {
                        assert(glyphs_light(text@, content_offset as int, y_origin as int, g, x, y));
                    }
                }
                assert(pixel(cleared, x, y) == 0u8) by {
                    lemma_row_major_index(cleared.width, cleared.height, x, y, x, y);
                }
            }
        }
        glyph_index = glyph_index + 1;
    }
    proof {
        let top = y_origin as int;
        let offset = content_offset as int;
        assert forall|index: int, dx: int, dy: int|
            0 <= index < text@.len() && #[trigger] glyph_pixel_on(glyph_columns(text@[index]), dx, dy)
                && 0 <= 6 * index - offset + dx < cleared.width && 0 <= top + dy
                < cleared.height implies pixel(frame@, 6 * index - offset + dx, top + dy)
            == 255u8 by {
            lemma_glyph_placement(text@, offset, top, index, dx, dy);
        }
        assert forall|x: int, y: int|
            0 <= x < cleared.width && 0 <= y < cleared.height && (x + offset) % 6
                == 5 implies #[trigger] pixel(frame@, x, y) == 0u8 by {
            lemma_gap_columns_dark(text@, offset, top, x, y);
        }
    }
}

/// Width in pixels of `glyphs` glyphs of the 5x7 font, each followed by one
/// blank column except the last, saturating at `usize::MAX`.
pub open spec fn spec_content_width(glyphs: nat) -> nat {
    if glyphs == 0 {
        0
    } else if glyphs * 6 > usize::MAX {
        (usize::MAX - 1) as nat
    } else {
        (glyphs * 6 - 1) as nat
    }
}

/// Number of pixel columns that `text` occupies when rendered with the 5x7 font.
pub fn content_width(text: &str) -> (width: usize)
    ensures
        width == spec_content_width(text@.len()),
{
    let glyphs = text.unicode_len();
    let scaled = match glyphs.checked_mul(6) {
        Some(value) => value,
        None => usize::MAX,
    };
    scaled.saturating_sub(1)
}


/// `a * b`, or `u64::MAX` when the product does not fit.
pub open spec fn saturating_product(a: u64, b: u64) -> u64 {
    if a * b > u64::MAX {
        u64::MAX
    } else {
        (a * b) as u64
    }
}

/// Whether a message repeated as `repeat`, with cycles of `cycle_ms`, is
/// still playing `elapsed_ms` after it started: forever, during its first
/// cycle, or during its first `count` cycles.
pub open spec fn playback_active(repeat: RepeatMode, cycle_ms: u64, elapsed_ms: u64) -> bool {
    match repeat {
        RepeatMode::Forever => true,
        RepeatMode::Once => elapsed_ms < cycle_ms,
        RepeatMode::Count(count) => count > 0 && elapsed_ms < saturating_product(
            cycle_ms,
            count as u64,
        ),
    }
}

/// The time into the current cycle while the message plays, `None` once it has stopped.
pub open spec fn playback_phase(repeat: RepeatMode, cycle_ms: u64, elapsed_ms: u64) -> Option<u64> {
    if playback_active(repeat, cycle_ms, elapsed_ms) {
        Some((elapsed_ms % cycle_ms) as u64)
    } else {
        None
    }
}

/// How far into its current cycle a message is, `elapsed_ms` after it
/// started, or `None` once its repetitions are over.
pub fn playback_position(repeat: RepeatMode, cycle_duration_ms: u64, elapsed_ms: u64) -> (phase:
    Option<u64>)
    requires
        cycle_duration_ms > 0,
    ensures
        phase == playback_phase(repeat, cycle_duration_ms, elapsed_ms),
{
    let is_active = match repeat {
        RepeatMode::Forever => true,
        RepeatMode::Once => elapsed_ms < cycle_duration_ms,
        RepeatMode::Count(count) => {
            let total = match cycle_duration_ms.checked_mul(count as u64) {
                Some(product) => product,
                None => u64::MAX,
            };
            count > 0 && elapsed_ms < total
        },
    };
    if !is_active {
        return None;
    }
    Some(elapsed_ms % cycle_duration_ms)
}

/// The distance, in pixels, after which a scrolling text repeats: the text
/// and the panel side by side, at least one pixel.
pub open spec fn scroll_travel(content_width: nat, display_width: nat) -> nat {
    if content_width + display_width == 0 {
        1
    } else {
        content_width + display_width
    }
}

/// The scroll offset of a text that has travelled `travelled` pixels: to
/// the left it enters from the right edge of the panel, to the right it
/// enters from the left edge.
pub open spec fn scroll_offset_spec(
    travelled: nat,
    content_width: nat,
    display_width: nat,
    direction: ScrollDirection,
) -> int {
    let phase = travelled % scroll_travel(content_width, display_width);
    match direction {
        ScrollDirection::Left => phase - display_width,
        ScrollDirection::Right => content_width - phase,
    }
}

/// The travel distance as a machine word: the sum saturates at `usize::MAX`.
pub open spec fn word_travel(content_width: usize, display_width: usize) -> usize {
    if content_width + display_width > usize::MAX {
        usize::MAX
    } else if content_width + display_width == 0 {
        1
    } else {
        (content_width + display_width) as usize
    }
}

/// The scroll offset as computed on machine words: the position within the
/// travel and the widths are taken as `i32`, keeping their low 32 bits.
pub open spec fn word_scroll_offset(
    travelled: usize,
    content_width: usize,
    display_width: usize,
    direction: ScrollDirection,
) -> int {
    let phase = (travelled % word_travel(content_width, display_width)) as usize;
    match direction {
        ScrollDirection::Left => (phase as i32) - (display_width as i32),
        ScrollDirection::Right => (content_width as i32) - (phase as i32),
    }
}

/// The scroll offset of a text `content_width` pixels wide on a panel
/// `display_width` pixels wide, once it has travelled `travelled` pixels.
/// When the text and the panel together span at most `i32::MAX` pixels, this
/// is [`scroll_offset_spec`]; the result must be an `i32`.
pub fn scroll_offset_after(
    travelled: usize,
    content_width: usize,
    display_width: usize,
    direction: ScrollDirection,
) -> (offset: i32)
    requires
        i32::MIN <= word_scroll_offset(travelled, content_width, display_width, direction)
            <= i32::MAX,
    ensures
        offset == word_scroll_offset(travelled, content_width, display_width, direction),
        content_width + display_width <= i32::MAX ==> offset == scroll_offset_spec(
            travelled as nat,
            content_width as nat,
            display_width as nat,
            direction,
        ),
{
    let travel = content_width.saturating_add(display_width);
    let travel = if travel == 0 {
        1
    } else {
        travel
    };
    let phase = travelled % travel;
    match direction {
        ScrollDirection::Left => phase as i32 - display_width as i32,
        ScrollDirection::Right => content_width as i32 - phase as i32,
    }
}

/// A message whose text, side by side with the panel, spans fewer pixels
/// than `i32` can address.
pub open spec fn message_fits(text_len: nat, display_width: nat) -> bool {
    6 * text_len + display_width < i32::MAX
}

/// The pixel (`x`, `y`) of the frame that shows `text` scrolled by `offset`
/// on a panel `height` rows tall.
pub open spec fn text_pixel(text: Seq<char>, offset: int, height: nat, x: int, y: int) -> u8 {
    if glyphs_light(text, offset, text_top_row(height), text.len() as int, x, y) {
        255u8
    } else {
        0u8
    }
}

/// The frame to show `elapsed_ms` after `message` started on the panel that
/// `config` describes, `None` once the message has stopped playing.
///
/// `cycle_duration_ms` is the length of one scroll cycle, `None` when the
/// message's speed is not a positive finite number; `travelled_pixels` gives
/// the distance the text has scrolled after a given time into a cycle.
pub fn render_message_frame<F: Fn(u64) -> usize>(
    config: &DisplayConfig,
    message: &MessageEnvelope,
    elapsed_ms: u64,
    cycle_duration_ms: Option<u64>,
    travelled_pixels: F,
) -> (result: Result<Option<FrameBuffer>, ValidationError>)
    requires
        message_fits(message.text@.len(), config.width as nat),
        cycle_duration_ms matches Some(cycle) ==> cycle > 0,
        forall|t: u64| call_requires(travelled_pixels, (t,)),
    ensures
        result is Err <==> !config.spec_valid() || !message.spec_valid() || cycle_duration_ms is None,
        !config.spec_valid() ==> result == Err::<Option<FrameBuffer>, _>(
            config.spec_check().get_Err_0(),
        ),
        config.spec_valid() && !message.spec_valid() ==> result == Err::<Option<FrameBuffer>, _>(
            message.spec_check().get_Err_0(),
        ),
        config.spec_valid() && message.spec_valid() && cycle_duration_ms is None ==> result == Err::<
            Option<FrameBuffer>,
            _,
        >(ValidationError("scroll speed must be a positive finite number")),
        result matches Ok(frame) ==> (frame is Some <==> playback_phase(
            message.repeat,
            cycle_duration_ms.unwrap(),
            elapsed_ms,
        ) is Some),
        result matches Ok(Some(frame)) ==> ({
            let phase = playback_phase(message.repeat, cycle_duration_ms.unwrap(), elapsed_ms).unwrap();
            &&& frame.wf()
            &&& frame@.width == config.width
            &&& frame@.height == config.height
            &&& frame@.serpentine == config.serpentine
            &&& frame@.origin == config.origin
            &&& exists|travelled: usize|
                {
                    &&& call_ensures(travelled_pixels, (phase,), travelled)
                    &&& forall|x: int, y: int|
                        0 <= x < config.width && 0 <= y < config.height ==> #[trigger] pixel(
                            frame@,
                            x,
                            y,
                        ) == text_pixel(
                            message.text@,
                            scroll_offset_spec(
                                travelled as nat,
                                spec_content_width(message.text@.len()),
                                config.width as nat,
                                message.direction,
                            ),
                            config.height as nat,
                            x,
                            y,
                        )
                }
        }),
{
    match config.validate() {
        Err(error) => {
            return Err(error);
        },
        Ok(()) => {},
    }
    match message.validate() {
        Err(error) => {
            return Err(error);
        },
        Ok(()) => {},
    }
    let text_width = content_width(message.text.as_str());
    let cycle_duration = match cycle_duration_ms {
        None => {
            return Err(ValidationError("scroll speed must be a positive finite number"));
        },
        Some(cycle) => cycle,
    };
    let cycle_elapsed_ms = match playback_position(message.repeat, cycle_duration, elapsed_ms) {
        None => {
            return Ok(None);
        },
        Some(phase) => phase,
    };
    let travelled = travelled_pixels(cycle_elapsed_ms);
    let display_width = config.width as usize;
    let offset = scroll_offset_after(travelled, text_width, display_width, message.direction);
    let mut frame = FrameBuffer::new(config);
    render_text_5x7(&mut frame, message.text.as_str(), offset);
    Ok(Some(frame))
}

/// Every position of a panel is the row-major position of a unique pixel.
proof fn lemma_position_decomposes(width: nat, height: nat, i: int)
    requires
        0 <= i < width * height,
    ensures
        0 <= i % (width as int) < width,
        0 <= i / (width as int) < height,
        i == row_major_index(width, i % (width as int), i / (width as int)),
{
    assert(width > 0) by (nonlinear_arith)
        requires
            0 <= i < width * height,
    ;
    let w = width as int;
    vstd::arithmetic::div_mod::lemma_fundamental_div_mod(i, w);
    vstd::arithmetic::div_mod::lemma_mod_pos_bound(i, w);
    let q = i / w;
    let r = i % w;
    assert(0 <= q < height) by (nonlinear_arith)
        requires
            i == w * q + r,
            0 <= r < w,
            0 <= i < w * height,
            w > 0,
    ;
    assert(i == q * w + r) by (nonlinear_arith)
        requires
            i == w * q + r,
    ;
}

/// The LED chain visits every pixel of the panel exactly once, whatever its
/// starting corner and wiring: each position of the chain takes a pixel of
/// the panel, distinct positions take distinct pixels, and every pixel is
/// taken by some position: the one at row `source_row(y)` and column
/// `source_column(source_row(y), x)` takes pixel (`x`, `y`).
pub proof fn lemma_chain_visits_every_pixel_once(
    width: nat,
    height: nat,
    origin: PixelOrigin,
    serpentine: bool,
)
    ensures
        forall|row: int, column: int|
            0 <= row < height && 0 <= column < width ==> {
                &&& 0 <= #[trigger] source_column(width, origin, serpentine, row, column) < width
                &&& 0 <= source_row(height, origin, row) < height
            },
        forall|row1: int, column1: int, row2: int, column2: int|
            0 <= row1 < height && 0 <= column1 < width && 0 <= row2 < height && 0 <= column2 < width
                && (row1 != row2 || column1 != column2) ==> (#[trigger] source_column(
                width,
                origin,
                serpentine,
                row1,
                column1,
            ) != #[trigger] source_column(width, origin, serpentine, row2, column2) || source_row(
                height,
                origin,
                row1,
            ) != source_row(height, origin, row2)),
        forall|y: int|
            0 <= y < height ==> source_row(height, origin, #[trigger] source_row(height, origin, y))
                == y,
        forall|row: int, x: int|
            0 <= x < width ==> source_column(
                width,
                origin,
                serpentine,
                row,
                #[trigger] source_column(width, origin, serpentine, row, x),
            ) == x,
{
}

/// Chain order from the top-left corner without back-and-forth wiring is
/// the row-major order.
pub proof fn lemma_top_left_chain_is_row_major(m: FrameModel, order: Seq<u8>)
    requires
        frame_valid(m),
        m.origin == PixelOrigin::TopLeft,
        !m.serpentine,
        is_chain_order(m, order),
    ensures
        order == m.pixels,
{
    assert forall|i: int| 0 <= i < order.len() implies order[i] == m.pixels[i] by {
        lemma_position_decomposes(m.width, m.height, i);
        let column = i % (m.width as int);
        let row = i / (m.width as int);
        assert(order[row_major_index(m.width, column, row)] == pixel(m, column, row));
    }
    assert(order =~= m.pixels);
}

/// Chain order from the top-left corner with back-and-forth wiring is the
/// serpentine order.
pub proof fn lemma_top_left_serpentine_chain_is_serpentine(
    m: FrameModel,
    chain: Seq<u8>,
    serpentine: Seq<u8>,
)
    requires
        frame_valid(m),
        m.origin == PixelOrigin::TopLeft,
        m.serpentine,
        is_chain_order(m, chain),
        is_serpentine_order(m, serpentine),
    ensures
        chain == serpentine,
{
    assert forall|i: int| 0 <= i < chain.len() implies chain[i] == serpentine[i] by {
        lemma_position_decomposes(m.width, m.height, i);
        let column = i % (m.width as int);
        let row = i / (m.width as int);
        assert(chain[row_major_index(m.width, column, row)] == serpentine[row_major_index(
            m.width,
            column,
            row,
        )]);
    }
    assert(chain =~= serpentine);
}

/// Scrolling is periodic: a text that has travelled one more full travel
/// distance is at the same offset.
pub proof fn lemma_scroll_offset_periodic(
    travelled: nat,
    content_width: nat,
    display_width: nat,
    direction: ScrollDirection,
)
    ensures
        scroll_offset_spec(
            travelled + scroll_travel(content_width, display_width),
            content_width,
            display_width,
            direction,
        ) == scroll_offset_spec(travelled, content_width, display_width, direction),
{
    let travel = scroll_travel(content_width, display_width) as int;
    vstd::arithmetic::div_mod::lemma_mod_add_multiples_vanish(travelled as int, travel);
}

/// A message played once shows during its first cycle only; one played
/// `count` times during its first `count` cycles; one played forever always.
pub proof fn lemma_playback_windows(cycle_ms: u64, elapsed_ms: u64, count: u32)
    requires
        cycle_ms > 0,
    ensures
        playback_phase(RepeatMode::Once, cycle_ms, elapsed_ms) is Some <==> elapsed_ms < cycle_ms,
        playback_phase(RepeatMode::Forever, cycle_ms, elapsed_ms) is Some,
        cycle_ms * count <= u64::MAX ==> (playback_phase(RepeatMode::Count(count), cycle_ms, elapsed_ms)
            is Some <==> elapsed_ms < cycle_ms * count),
        playback_phase(RepeatMode::Count(1), cycle_ms, elapsed_ms) == playback_phase(
            RepeatMode::Once,
            cycle_ms,
            elapsed_ms,
        ),
        playback_phase(RepeatMode::Forever, cycle_ms, elapsed_ms) == Some(
            (elapsed_ms % cycle_ms) as u64,
        ),
{
    assert(cycle_ms * count >= 0) by (nonlinear_arith)
        requires
            cycle_ms > 0,
    ;
    assert(cycle_ms * (1u32 as u64) == cycle_ms);
    assert(saturating_product(cycle_ms, 1u32 as u64) == cycle_ms);
}
/// Glyph `index` of a text is drawn with its left column at
/// `6 * index - offset` and its top row at `top`: every lit dot (`dx`, `dy`)
/// of its font pattern lights the pixel `dx` columns right of and `dy` rows
/// below that corner.
pub proof fn lemma_glyph_placement(text: Seq<char>, offset: int, top: int, index: int, dx: int, dy: int)
    requires
        0 <= index < text.len(),
        0 <= dx < 5,
        0 <= dy < 7,
        glyph_columns(text[index])[dx] & (1u8 << (dy as u8)) != 0,
    ensures
        glyphs_light(text, offset, top, text.len() as int, 6 * index - offset + dx, top + dy),
{
    assert(glyph_lights(text, offset, top, index, 6 * index - offset + dx, top + dy));
}

/// Glyphs are six columns apart and five wide: every column whose distance
/// from the start of the text is five more than a multiple of six stays dark.
pub proof fn lemma_gap_columns_dark(text: Seq<char>, offset: int, top: int, x: int, y: int)
    requires
        (x + offset) % 6 == 5,
    ensures
        !glyphs_light(text, offset, top, text.len() as int, x, y),
{
    assert forall|index: int| !(#[trigger] glyph_lights(text, offset, top, index, x, y)) by {
        let dx = x - (6 * index - offset);
        if 0 <= dx < 5 {
            assert((6 * index + dx) % 6 == dx) by (nonlinear_arith)
                requires
                    0 <= dx < 5,
            ;
            assert(x + offset == 6 * index + dx);
        }
    }
}

/// The column right after each glyph, `6 * index + 5 - offset`, stays dark:
/// one blank column separates neighbouring glyphs.
pub proof fn lemma_blank_column_after_glyph(text: Seq<char>, offset: int, top: int, index: int, y: int)
    ensures
        !glyphs_light(text, offset, top, text.len() as int, 6 * index + 5 - offset, y),
{
    assert((6 * index + 5) % 6 == 5) by (nonlinear_arith);
    lemma_gap_columns_dark(text, offset, top, 6 * index + 5 - offset, y);
}
} // verus!
