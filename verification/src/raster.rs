//! The mathematical model of a luma raster and of the geometric operations
//! on it.

use vstd::prelude::*;
use vstd::arithmetic::div_mod::{lemma_fundamental_div_mod, lemma_fundamental_div_mod_converse};

verus! {

/// A row-major grid of luma bytes.
pub struct Raster {
    pub width: nat,
    pub height: nat,
    pub luma: Seq<u8>,
}

impl Raster {
    /// The buffer holds exactly `width * height` bytes.
    pub open spec fn wf(self) -> bool {
        self.luma.len() == self.width * self.height
    }

    /// The byte at `row` and `col`.
    pub open spec fn pixel(self, row: int, col: int) -> u8
        recommends
            0 <= row < self.height,
            0 <= col < self.width,
    {
        self.luma[row * self.width + col]
    }

    /// One row of the raster.
    pub open spec fn row(self, row: int) -> Seq<u8>
        recommends
            0 <= row < self.height,
    {
        self.luma.subrange(row * self.width, (row + 1) * self.width)
    }

    /// The raster with `n` white rows put above it.
    pub open spec fn padded_top(self, n: nat) -> Raster {
        Raster {
            width: self.width,
            height: self.height + n,
            luma: Seq::new(n * self.width, |k: int| 255u8) + self.luma,
        }
    }

    /// The raster with every byte `v` replaced by `255 - v`.
    pub open spec fn inverted(self) -> Raster {
        Raster {
            width: self.width,
            height: self.height,
            luma: Seq::new(self.luma.len(), |k: int| (255 - self.luma[k]) as u8),
        }
    }

    /// The raster turned a quarter turn clockwise: row `r` of the result is
    /// column `r` of this one, read from the bottom up.
    pub open spec fn rotated(self) -> Raster {
        Raster {
            width: self.height,
            height: self.width,
            luma: Seq::new(
                self.width * self.height,
                |k: int| self.pixel(self.height - 1 - k % (self.height as int), k / (self.height as int)),
            ),
        }
    }

    /// The raster with every row followed by its own reverse.
    pub open spec fn mirrored(self) -> Raster {
        Raster {
            width: 2 * self.width,
            height: self.height,
            luma: Seq::new(
                2 * self.width * self.height,
                |k: int|
                    {
                        let row = k / (2 * self.width as int);
                        let col = k % (2 * self.width as int);
                        self.pixel(row, if col < self.width { col } else { 2 * self.width - 1 - col })
                    },
            ),
        }
    }

    /// Every row reads the same from both ends: `row[k] == row[width - 1 - k]`.
    pub open spec fn rows_symmetric(self) -> bool {
        forall|row: int, k: int|
            0 <= row < self.height && 0 <= k < self.width ==> #[trigger] self.pixel(row, k)
                == self.pixel(row, self.width - 1 - k)
    }

    /// Every byte is zero.
    pub open spec fn is_blank(self) -> bool {
        forall|k: int| 0 <= k < self.luma.len() ==> self.luma[k] == 0
    }

    /// Every byte is 255.
    pub open spec fn is_white(self) -> bool {
        forall|k: int| 0 <= k < self.luma.len() ==> self.luma[k] == 255
    }

    /// The raster as opaque grey RGBA pixels.
    pub open spec fn rgba(self) -> Seq<u8> {
        Seq::new(4 * self.luma.len(), |k: int| if k % 4 == 3 { 255u8 } else { self.luma[k / 4] })
    }
}

/// Splits a row-major index into its row and column.
pub proof fn lemma_index_split(width: int, row: int, col: int)
    requires
        0 <= col < width,
    ensures
        (row * width + col) / width == row,
        (row * width + col) % width == col,
{
    lemma_fundamental_div_mod_converse(row * width + col, width, row, col);
}

/// A position inside the grid has its row-major index inside the buffer.
pub proof fn lemma_index_in_bounds(width: int, height: int, row: int, col: int)
    requires
        0 <= row < height,
        0 <= col < width,
    ensures
        0 <= row * width + col < width * height,
{
    assert(0 <= row * width) by (nonlinear_arith)
        requires
            0 <= row,
            0 <= width,
    ;
    assert((row + 1) * width <= height * width) by (nonlinear_arith)
        requires
            row + 1 <= height,
            0 <= width,
    ;
    assert((row + 1) * width == row * width + width) by (nonlinear_arith);
    assert(height * width == width * height) by (nonlinear_arith);
}

/// A row inside the grid occupies a stretch of `width` indices inside the
/// buffer.
pub proof fn lemma_row_in_bounds(width: int, height: int, row: int)
    requires
        0 <= row < height,
        0 <= width,
    ensures
        0 <= row * width,
        (row + 1) * width == row * width + width,
        row * width + width <= width * height,
{
    assert(0 <= row * width && (row + 1) * width <= width * height && (row + 1) * width == row
        * width + width) by (nonlinear_arith)
        requires
            0 <= row < height,
            0 <= width,
    ;
}

/// An index inside the buffer lies at a row and a column inside the grid.
pub proof fn lemma_index_position(width: int, height: int, k: int)
    requires
        0 <= k < width * height,
        0 <= height,
    ensures
        0 < width,
        0 <= k / width < height,
        0 <= k % width < width,
        k == (k / width) * width + k % width,
{
    assert(0 < width) by (nonlinear_arith)
        requires
            0 <= k < width * height,
            0 <= height,
    ;
    lemma_fundamental_div_mod(k, width);
    let row = k / width;
    assert(width * row == row * width) by (nonlinear_arith);
    assert(0 <= row) by (nonlinear_arith)
        requires
            0 <= k,
            0 < width,
            k == row * width + k % width,
            0 <= k % width < width,
    ;
    assert(row < height) by (nonlinear_arith)
        requires
            k < width * height,
            0 < width,
            k == row * width + k % width,
            0 <= k % width,
    ;
}

impl Raster {
    /// Padding keeps the buffer as long as the dimensions say.
    pub proof fn lemma_padded_top_wf(self, n: nat)
        requires
            self.wf(),
        ensures
            self.padded_top(n).wf(),
    {
        assert(n * self.width + self.width * self.height == self.width * (self.height + n))
            by (nonlinear_arith);
    }

    /// White rows above a raster leave it white exactly if it was.
    pub proof fn lemma_padded_top_white(self, n: nat)
        ensures
            self.padded_top(n).is_white() <==> self.is_white(),
    {
        let padded = self.padded_top(n);
        let above = n * self.width;
        if padded.is_white() {
            assert forall|k: int| 0 <= k < self.luma.len() implies self.luma[k] == 255 by {
                assert(padded.luma[above + k] == self.luma[k]);
            }
        }
        if self.is_white() {
            assert forall|k: int| 0 <= k < padded.luma.len() implies padded.luma[k] == 255 by {
                if k >= above {
                    assert(padded.luma[k] == self.luma[k - above]);
                }
            }
        }
    }

    /// The inverse of a raster is all zero exactly if the raster is white.
    pub proof fn lemma_inverted_blank(self)
        ensures
            self.inverted().is_blank() <==> self.is_white(),
    {
        let inverse = self.inverted();
        if inverse.is_blank() {
            assert forall|k: int| 0 <= k < self.luma.len() implies self.luma[k] == 255 by {
                assert(inverse.luma[k] == 0);
            }
        }
    }

    /// Inverting twice gives the same raster back.
    pub proof fn lemma_invert_involution(self)
        ensures
            self.inverted().inverted() == self,
    {
        assert(self.inverted().inverted().luma =~= self.luma);
    }

    /// Inverting changes no dimension.
    pub proof fn lemma_inverted_wf(self)
        requires
            self.wf(),
        ensures
            self.inverted().wf(),
    {
    }

    /// A quarter turn swaps the dimensions and keeps the number of pixels.
    pub proof fn lemma_rotated_wf(self)
        requires
            self.wf(),
        ensures
            self.rotated().wf(),
            self.rotated().width == self.height,
            self.rotated().height == self.width,
            self.rotated().luma.len() == self.luma.len(),
    {
        assert(self.width * self.height == self.height * self.width) by (nonlinear_arith);
    }

    /// Where each pixel of the turned raster comes from: row `row` of the
    /// result is column `row` of this raster, read from the last row up.
    pub proof fn lemma_rotated_pixel(self, row: int, col: int)
        requires
            self.wf(),
            0 <= row < self.width,
            0 <= col < self.height,
        ensures
            self.rotated().pixel(row, col) == self.pixel(self.height - 1 - col, row),
    {
        let h = self.height as int;
        lemma_index_in_bounds(h, self.width as int, row, col);
        lemma_index_split(h, row, col);
        assert(h * self.width == self.width * h) by (nonlinear_arith);
    }

    /// A quarter turn moves the bytes and changes none: the result is all
    /// zero exactly if this raster is.
    pub proof fn lemma_rotated_blank(self)
        requires
            self.wf(),
        ensures
            self.rotated().is_blank() <==> self.is_blank(),
    {
        let w = self.width as int;
        let h = self.height as int;
        let turned = self.rotated();
        self.lemma_rotated_wf();
        assert(w * h == h * w) by (nonlinear_arith);
        if turned.is_blank() {
            assert forall|k: int| 0 <= k < self.luma.len() implies self.luma[k] == 0 by {
                lemma_index_position(w, h, k);
                let row = k / w;
                let col = k % w;
                self.lemma_rotated_pixel(col, h - 1 - row);
                lemma_index_in_bounds(h, w, col, h - 1 - row);
                assert(turned.luma[col * h + (h - 1 - row)] == 0);
            }
        }
        if self.is_blank() {
            assert forall|k: int| 0 <= k < turned.luma.len() implies turned.luma[k] == 0 by {
                lemma_index_position(h, w, k);
                lemma_index_in_bounds(w, h, h - 1 - k % h, k / h);
                assert(self.luma[(h - 1 - k % h) * w + k / h] == 0);
            }
        }
    }

    /// Four quarter turns give the same raster back: same width, same height,
    /// same bytes.
    pub proof fn lemma_rotate_four_times(self)
        requires
            self.wf(),
        ensures
            self.rotated().rotated().rotated().rotated() == self,
    {
        let w = self.width as int;
        let h = self.height as int;
        let r1 = self.rotated();
        let r2 = r1.rotated();
        let r3 = r2.rotated();
        let r4 = r3.rotated();
        self.lemma_rotated_wf();
        r1.lemma_rotated_wf();
        r2.lemma_rotated_wf();
        r3.lemma_rotated_wf();
        assert forall|k: int| 0 <= k < self.luma.len() implies r4.luma[k] == self.luma[k] by {
            lemma_index_position(w, h, k);
            let row = k / w;
            let col = k % w;
            r3.lemma_rotated_pixel(row, col);
            r2.lemma_rotated_pixel(w - 1 - col, row);
            r1.lemma_rotated_pixel(h - 1 - row, w - 1 - col);
            self.lemma_rotated_pixel(col, h - 1 - row);
            assert(r4.luma[k] == r4.pixel(row, col));
            assert(self.luma[k] == self.pixel(row, col));
        }
        assert(r4.luma =~= self.luma);
    }

    /// Mirror-extension doubles the width and keeps the height.
    pub proof fn lemma_mirrored_wf(self)
        requires
            self.wf(),
        ensures
            self.mirrored().wf(),
    {
        assert(2 * self.width * self.height == (2 * self.width) * self.height) by (nonlinear_arith);
    }

    /// Mirror-extension repeats the bytes and changes none: the result is
    /// all zero exactly if this raster is.
    pub proof fn lemma_mirrored_blank(self)
        requires
            self.wf(),
        ensures
            self.mirrored().is_blank() <==> self.is_blank(),
    {
        let w = self.width as int;
        let h = self.height as int;
        let m = self.mirrored();
        self.lemma_mirrored_wf();
        assert(2 * w * h == (2 * w) * h) by (nonlinear_arith);
        if m.is_blank() {
            assert forall|k: int| 0 <= k < self.luma.len() implies self.luma[k] == 0 by {
                lemma_index_position(w, h, k);
                let row = k / w;
                let col = k % w;
                self.lemma_mirrored_pixel(row, col);
                lemma_index_in_bounds(2 * w, h, row, col);
                assert(m.luma[row * (2 * w) + col] == 0);
            }
        }
        if self.is_blank() {
            assert forall|k: int| 0 <= k < m.luma.len() implies m.luma[k] == 0 by {
                lemma_index_position(2 * w, h, k);
                let row = k / (2 * w);
                let col = k % (2 * w);
                let from = if col < w {
                    col
                } else {
                    2 * w - 1 - col
                };
                lemma_index_in_bounds(w, h, row, from);
                assert(self.luma[row * w + from] == 0);
            }
        }
    }

    /// Where each pixel of the mirror-extended raster comes from: the left
    /// half of a row is the row as it was, the right half is it reversed.
    pub proof fn lemma_mirrored_pixel(self, row: int, col: int)
        requires
            self.wf(),
            0 <= row < self.height,
            0 <= col < 2 * self.width,
        ensures
            self.mirrored().pixel(row, col) == self.pixel(
                row,
                if col < self.width {
                    col
                } else {
                    2 * self.width - 1 - col
                },
            ),
    {
        let w2 = 2 * self.width as int;
        lemma_index_in_bounds(w2, self.height as int, row, col);
        lemma_index_split(w2, row, col);
        assert(w2 * self.height == 2 * self.width * self.height) by (nonlinear_arith)
            requires
                w2 == 2 * self.width,
        ;
    }

    /// Every row of a mirror-extended raster reads the same in both
    /// directions.
    pub proof fn lemma_mirrored_symmetric(self, row: int, k: int)
        requires
            self.wf(),
            0 <= row < self.height,
            0 <= k < 2 * self.width,
        ensures
            self.mirrored().pixel(row, k) == self.mirrored().pixel(row, 2 * self.width - 1 - k),
    {
        self.lemma_mirrored_pixel(row, k);
        self.lemma_mirrored_pixel(row, 2 * self.width - 1 - k);
    }

    /// A mirror-extended raster has symmetric rows.
    pub proof fn lemma_mirrored_rows_symmetric(self)
        requires
            self.wf(),
        ensures
            self.mirrored().rows_symmetric(),
    {
        let m = self.mirrored();
        assert forall|row: int, k: int| 0 <= row < m.height && 0 <= k < m.width implies #[trigger] m.pixel(
            row,
            k,
        ) == m.pixel(row, m.width - 1 - k) by {
            self.lemma_mirrored_symmetric(row, k);
        }
    }

    /// Every row of a mirror-extended raster is the row as it was, followed by
    /// its reverse.
    pub proof fn lemma_mirrored_row(self, row: int)
        requires
            self.wf(),
            0 <= row < self.height,
        ensures
            self.mirrored().row(row) == self.row(row) + self.row(row).reverse(),
    {
        let w = self.width as int;
        let m = self.mirrored();
        let plain = self.row(row);
        self.lemma_mirrored_wf();
        assert(0 <= row * w && (row + 1) * w <= w * self.height && (row + 1) * w == row * w + w)
            by (nonlinear_arith)
            requires
                0 <= row < self.height,
                0 <= w,
        ;
        assert(0 <= row * (2 * w) && (row + 1) * (2 * w) <= 2 * w * self.height && (row + 1) * (2
            * w) == row * (2 * w) + 2 * w) by (nonlinear_arith)
            requires
                0 <= row < self.height,
                0 <= w,
        ;
        assert(m.row(row).len() == 2 * w);
        assert(plain.len() == w);
        assert forall|c: int| 0 <= c < 2 * w implies m.row(row)[c] == (plain
            + plain.reverse())[c] by {
            self.lemma_mirrored_pixel(row, c);
            assert(m.row(row)[c] == m.pixel(row, c));
            if c < w {
                assert(plain[c] == self.pixel(row, c));
            } else {
                assert(plain.reverse()[c - w] == plain[w - 1 - (c - w)]);
                assert(plain[2 * w - 1 - c] == self.pixel(row, 2 * w - 1 - c));
            }
        }
        assert(m.row(row) =~= plain + plain.reverse());
    }
}

} // verus!
