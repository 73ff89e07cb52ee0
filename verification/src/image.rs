//! The luma raster held in memory, and the geometric operations that
//! prepare it for synthesis.

use vstd::prelude::*;
use crate::error::PipelineError;
use crate::luma::{luma_plane, rgba_to_luma};
use crate::raster::{lemma_index_in_bounds, lemma_index_split, lemma_row_in_bounds, Raster};

verus! {

/// A greyscale image: `width * height` luma bytes in row-major order.
#[derive(Debug, PartialEq, Eq)]
pub struct Image {
    data: Vec<u8>,
    height: usize,
    width: usize,
}

impl View for Image {
    type V = Raster;

    closed spec fn view(&self) -> Raster {
        Raster { width: self.width as nat, height: self.height as nat, luma: self.data@ }
    }
}

/// Which error, if any, the construction of an image from `len` RGBA bytes
/// with the given dimensions ends in.
pub open spec fn input_error(len: nat, width: nat, height: nat) -> Option<PipelineError> {
    if len % 4 != 0 {
        Some(PipelineError::InvalidInputLength)
    } else if len / 4 != width * height {
        Some(PipelineError::InvalidDimension)
    } else {
        None
    }
}

impl Clone for Image {
    fn clone(&self) -> (copy: Self)
        ensures
            copy@ == self@,
    {
        proof {
            use_type_invariant(self);
        }
        Image { data: self.data.clone(), height: self.height, width: self.width }
    }
}

impl Image {
    /// The buffer always holds exactly `width * height` bytes.
    #[verifier::type_invariant]
    pub open spec fn well_formed(&self) -> bool {
        self@.wf()
    }

    /// Builds the luma image of an RGBA buffer of `width` by `height` pixels.
    pub fn new(data: Vec<u8>, width: usize, height: usize) -> (result: Result<Image, PipelineError>)
        ensures
            result is Ok <==> data@.len() == 4 * (width * height),
            result matches Ok(image) ==> image@ == (Raster {
                width: width as nat,
                height: height as nat,
                luma: luma_plane(data@),
            }) && image@.wf(),
            result matches Err(e) ==> Some(e) == input_error(data@.len(), width as nat, height as nat),
    {
        let plane = match rgba_to_luma(&data) {
            Ok(plane) => plane,
            Err(e) => { return Err(e); },
        };
        let count: usize = plane.len();
        assert(count == data@.len() / 4);
        match width.checked_mul(height) {
            Some(pixels) => {
                if pixels == count {
                    Ok(Image { data: plane, height, width })
                } else {
                    Err(PipelineError::InvalidDimension)
                }
            },
            None => Err(PipelineError::InvalidDimension),
        }
    }

    /// The number of columns.
    pub fn width(&self) -> (w: usize)
        ensures
            w == self@.width,
    {
        self.width
    }

    /// The number of rows.
    pub fn height(&self) -> (h: usize)
        ensures
            h == self@.height,
    {
        self.height
    }

    /// The luma bytes, row by row.
    pub fn luma(&self) -> (bytes: &Vec<u8>)
        ensures
            bytes@ == self@.luma,
            self@.wf(),
    {
        proof {
            use_type_invariant(self);
        }
        &self.data
    }

    /// Whether every byte of the image is zero.
    pub fn is_blank(&self) -> (blank: bool)
        ensures
            blank == self@.is_blank(),
    {
        let len: usize = self.data.len();
        let mut i: usize = 0;
        while i < len
            invariant
                len == self.data@.len(),
                i <= len,
                forall|k: int| 0 <= k < i ==> self.data@[k] == 0,
            decreases len - i,
        {
            if self.data[i] != 0 {
                assert(self@.luma[i as int] != 0);
                return false;
            }
            i += 1;
        }
        true
    }

    /// Puts `n_rows` white rows above the image.
    pub fn pad_top(&mut self, n_rows: usize)
        requires
            old(self)@.height + n_rows <= usize::MAX,
            (old(self)@.height + n_rows) * old(self)@.width <= usize::MAX,
        ensures
            final(self)@ == old(self)@.padded_top(n_rows as nat),
            final(self)@.wf(),
    {
        proof {
            use_type_invariant(&*self);
        }
        let width: usize = self.width;
        let height: usize = self.height;
        assert(n_rows * width + width * height == width * (height + n_rows)) by (nonlinear_arith);
        assert(width * (height + n_rows) == (height + n_rows) * width) by (nonlinear_arith);
        assert(0 <= width * height) by (nonlinear_arith)
            requires
                0 <= height,
                0 <= width,
        ;
        let mut padding: Vec<u8> = vec![255u8; n_rows * width];
        padding.extend_from_slice(self.data.as_slice());
        assert(padding@ =~= old(self)@.padded_top(n_rows as nat).luma);
        *self = Image { data: padding, height: height + n_rows, width };
    }

    /// Replaces every byte `v` by `255 - v`.
    pub fn invert(&mut self)
        ensures
            final(self)@ == old(self)@.inverted(),
            final(self)@.wf(),
    {
        proof {
            use_type_invariant(&*self);
        }
        let len: usize = self.data.len();
        let mut inverted: Vec<u8> = Vec::with_capacity(len);
        let mut i: usize = 0;
        while i < len
            invariant
                len == self.data@.len(),
                i <= len,
                inverted@.len() == i,
                forall|k: int| 0 <= k < i ==> inverted@[k] == (255 - self.data@[k]) as u8,
            decreases len - i,
        {
            inverted.push(255 - self.data[i]);
            i += 1;
        }
        assert(inverted@ =~= old(self)@.inverted().luma);
        *self = Image { data: inverted, height: self.height, width: self.width };
    }

    /// The image as opaque grey RGBA pixels, for display.
    pub fn rgba_data(&self) -> (rgba: Vec<u8>)
        ensures
            self@.wf(),
            rgba@ == self@.rgba(),
            rgba@.len() == 4 * self@.luma.len(),
            forall|i: int|
                0 <= i < self@.luma.len() ==> rgba@[4 * i] == self@.luma[i] && rgba@[4 * i + 1]
                    == self@.luma[i] && rgba@[4 * i + 2] == self@.luma[i] && rgba@[4 * i + 3]
                    == 255,
    {
        proof {
            use_type_invariant(self);
        }
        let len: usize = self.data.len();
        let mut rgba: Vec<u8> = Vec::new();
        let mut i: usize = 0;
        while i < len
            invariant
                len == self.data@.len(),
                i <= len,
                rgba@.len() == 4 * i,
                forall|k: int| 0 <= k < 4 * i ==> rgba@[k] == self@.rgba()[k],
            decreases len - i,
        {
            let luma: u8 = self.data[i];
            rgba.push(luma);
            rgba.push(luma);
            rgba.push(luma);
            rgba.push(255);
            i += 1;
        }
        assert(rgba@ =~= self@.rgba());
        rgba
    }

    /// Turns the image a quarter turn clockwise: every column, read from the
    /// bottom up, becomes a row.
    pub fn rotate90(&mut self)
        ensures
            final(self)@ == old(self)@.rotated(),
            final(self)@.wf(),
            final(self)@.width == old(self)@.height,
            final(self)@.height == old(self)@.width,
    {
        proof {
            use_type_invariant(&*self);
        }
        let ghost before = self@;
        let width: usize = self.width;
        let height: usize = self.height;
        let len: usize = self.data.len();
        let mut rotated: Vec<u8> = Vec::with_capacity(len);
        let mut i: usize = 0;
        while i < width
            invariant
                len == self.data@.len(),
                before.wf(),
                before.width == width,
                before.height == height,
                before.luma == self.data@,
                i <= width,
                rotated@.len() == i * height,
                forall|k: int| 0 <= k < rotated@.len() ==> rotated@[k] == before.rotated().luma[k],
            decreases width - i,
        {
            let mut j: usize = height;
            while j > 0
                invariant
                    len == self.data@.len(),
                    before.wf(),
                    before.width == width,
                    before.height == height,
                    before.luma == self.data@,
                    i < width,
                    j <= height,
                    rotated@.len() == i * height + (height - j),
                    forall|k: int|
                        0 <= k < rotated@.len() ==> rotated@[k] == before.rotated().luma[k],
                decreases j,
            {
                j -= 1;
                proof {
                    lemma_index_in_bounds(width as int, height as int, j as int, i as int);
                    lemma_index_in_bounds(
                        height as int,
                        width as int,
                        i as int,
                        height - 1 - j,
                    );
                    lemma_index_split(height as int, i as int, height - 1 - j);
                    assert(width * j == j * width) by (nonlinear_arith);
                    assert(height * width == width * height) by (nonlinear_arith);
                }
                let idx: usize = width * j + i;
                rotated.push(self.data[idx]);
            }
            assert((i + 1) * height == i * height + height) by (nonlinear_arith);
            i += 1;
        }
        proof {
            before.lemma_rotated_wf();
            assert(rotated@ =~= before.rotated().luma);
        }
        *self = Image { data: rotated, height: width, width: height };
    }

    /// Doubles the width: every row is followed by its own reverse, which
    /// makes it an even-symmetric spectrum.
    pub fn reflect_about_y_axis(&mut self)
        requires
            2 * old(self)@.width <= usize::MAX,
            2 * old(self)@.width * old(self)@.height <= usize::MAX,
        ensures
            final(self)@ == old(self)@.mirrored(),
            final(self)@.wf(),
            final(self)@.width == 2 * old(self)@.width,
            final(self)@.height == old(self)@.height,
            final(self)@.rows_symmetric(),
    {
        proof {
            use_type_invariant(&*self);
        }
        let ghost before = self@;
        let width: usize = self.width;
        let height: usize = self.height;
        let doubled: usize = 2 * width;
        let len: usize = self.data.len();
        let mut reflected: Vec<u8> = Vec::new();
        let mut i: usize = 0;
        while i < height
            invariant
                len == self.data@.len(),
                before.wf(),
                before.width == width,
                before.height == height,
                before.luma == self.data@,
                doubled == 2 * width,
                i <= height,
                reflected@.len() == i * doubled,
                forall|k: int|
                    0 <= k < reflected@.len() ==> reflected@[k] == before.mirrored().luma[k],
            decreases height - i,
        {
            proof {
                lemma_row_in_bounds(width as int, height as int, i as int);
            }
            let start: usize = i * width;
            let mut c: usize = 0;
            while c < width
                invariant
                    len == self.data@.len(),
                    start + width <= len,
                    before.wf(),
                    before.width == width,
                    before.height == height,
                    before.luma == self.data@,
                    doubled == 2 * width,
                    i < height,
                    c <= width,
                    start == i * width,
                    reflected@.len() == i * doubled + c,
                    forall|k: int|
                        0 <= k < reflected@.len() ==> reflected@[k] == before.mirrored().luma[k],
                decreases width - c,
            {
                proof {
                    lemma_index_in_bounds(width as int, height as int, i as int, c as int);
                    lemma_index_in_bounds(doubled as int, height as int, i as int, c as int);
                    lemma_index_split(doubled as int, i as int, c as int);
                    assert(doubled * height == 2 * width * height) by (nonlinear_arith)
                        requires
                            doubled == 2 * width,
                    ;
                }
                reflected.push(self.data[start + c]);
                c += 1;
            }
            let mut c: usize = width;
            while c > 0
                invariant
                    len == self.data@.len(),
                    start + width <= len,
                    before.wf(),
                    before.width == width,
                    before.height == height,
                    before.luma == self.data@,
                    doubled == 2 * width,
                    i < height,
                    c <= width,
                    start == i * width,
                    reflected@.len() == i * doubled + width + (width - c),
                    forall|k: int|
                        0 <= k < reflected@.len() ==> reflected@[k] == before.mirrored().luma[k],
                decreases c,
            {
                c -= 1;
                proof {
                    lemma_index_in_bounds(width as int, height as int, i as int, c as int);
                    lemma_index_in_bounds(
                        doubled as int,
                        height as int,
                        i as int,
                        doubled - 1 - c,
                    );
                    lemma_index_split(doubled as int, i as int, doubled - 1 - c);
                    assert(doubled * height == 2 * width * height) by (nonlinear_arith)
                        requires
                            doubled == 2 * width,
                    ;
                }
                reflected.push(self.data[start + c]);
            }
            assert((i + 1) * doubled == i * doubled + doubled) by (nonlinear_arith);
            i += 1;
        }
        proof {
            before.lemma_mirrored_wf();
            assert(reflected@.len() == 2 * width * height) by (nonlinear_arith)
                requires
                    reflected@.len() == height * doubled,
                    doubled == 2 * width,
            ;
            assert(reflected@ =~= before.mirrored().luma);
            before.lemma_mirrored_rows_symmetric();
        }
        *self = Image { data: reflected, height, width: doubled };
    }

    /// The rows of the image, top to bottom: each is the real part of one
    /// spectrum to be transformed.
    pub fn spectral_rows(&self) -> (rows: Vec<Vec<u8>>)
        ensures
            self@.wf(),
            rows@.len() == self@.height,
            forall|i: int| 0 <= i < rows@.len() ==> (#[trigger] rows@[i])@ == self@.row(i),
            forall|i: int| 0 <= i < rows@.len() ==> (#[trigger] rows@[i])@.len() == self@.width,
    {
        proof {
            use_type_invariant(self);
        }
        let width: usize = self.width;
        let height: usize = self.height;
        let len: usize = self.data.len();
        let mut rows: Vec<Vec<u8>> = Vec::new();
        let mut i: usize = 0;
        while i < height
            invariant
                len == self.data@.len(),
                self@.wf(),
                self@.width == width,
                self@.height == height,
                i <= height,
                rows@.len() == i,
                forall|r: int| 0 <= r < i ==> (#[trigger] rows@[r])@ == self@.row(r),
                forall|r: int| 0 <= r < i ==> (#[trigger] rows@[r])@.len() == width,
            decreases height - i,
        {
            proof {
                lemma_row_in_bounds(width as int, height as int, i as int);
            }
            let start: usize = i * width;
            let mut row: Vec<u8> = Vec::with_capacity(width);
            let mut j: usize = 0;
            while j < width
                invariant
                    self@.wf(),
                    self@.width == width,
                    self@.height == height,
                    i < height,
                    len == self.data@.len(),
                    start == i * width,
                    start + width <= len,
                    j <= width,
                    row@.len() == j,
                    forall|c: int| 0 <= c < j ==> row@[c] == self.data@[start + c],
                decreases width - j,
            {
                row.push(self.data[start + j]);
                j += 1;
            }
            assert(row@ =~= self@.row(i as int));
            rows.push(row);
            i += 1;
        }
        rows
    }
}

} // verus!
