use vstd::prelude::*;

verus! {

/// A decoded 8-bit RGB raster: a flat byte buffer, row-major from the
/// top row down, three bytes per pixel, no alpha. Decoding the image
/// file is the caller's business; the texture consumes only the bytes
/// and the dimensions.
pub struct ImageTexture {
    data: Vec<u8>,
    width: u32,
    height: u32,
    bytes_per_scanline: u32,
}

impl ImageTexture {
    pub closed spec fn spec_data(&self) -> Seq<u8> {
        self.data@
    }

    pub closed spec fn spec_width(&self) -> u32 {
        self.width
    }

    pub closed spec fn spec_height(&self) -> u32 {
        self.height
    }

    pub closed spec fn spec_bytes_per_scanline(&self) -> u32 {
        self.bytes_per_scanline
    }

    /// Three bytes for each pixel of a row, and one scanline per row.
    pub open spec fn wf(&self) -> bool {
        &&& self.spec_bytes_per_scanline() == 3 * self.spec_width()
        &&& self.spec_data().len() == self.spec_height() * self.spec_bytes_per_scanline()
    }

    /// Accepts the raster exactly when the buffer agrees with the
    /// declared dimensions.
    pub fn new(data: Vec<u8>, width: u32, height: u32, bytes_per_scanline: u32) -> (r: Option<
        ImageTexture,
    >)
        ensures
            r is Some <==> (bytes_per_scanline == 3 * width && data@.len() == height
                * bytes_per_scanline),
            match r {
                Some(t) => t.wf() && t.spec_data() == data@ && t.spec_width() == width
                    && t.spec_height() == height && t.spec_bytes_per_scanline()
                    == bytes_per_scanline,
                None => true,
            },
    {
        let rows_bytes_ok = (bytes_per_scanline as u64) == 3u64 * (width as u64);
        proof {
            assert((height as u64) * (bytes_per_scanline as u64) <= 0xffff_ffff * 0xffff_ffff)
                by (nonlinear_arith)
                requires
                    height <= 0xffff_ffffu64,
                    bytes_per_scanline <= 0xffff_ffffu64,
            ;
        }
        let size_ok = (data.len() as u64) == (height as u64) * (bytes_per_scanline as u64);
        if rows_bytes_ok && size_ok {
            Some(ImageTexture { data, width, height, bytes_per_scanline })
        } else {
            None
        }
    }

    pub fn width(&self) -> (w: u32)
        ensures
            w == self.spec_width(),
    {
        self.width
    }

    pub fn height(&self) -> (h: u32)
        ensures
            h == self.spec_height(),
    {
        self.height
    }

    pub fn data_len(&self) -> (n: usize)
        ensures
            n == self.spec_data().len(),
    {
        self.data.len()
    }

    /// Red, green and blue bytes of the addressed pixel; a column or
    /// row index past the raster clamps to the last valid one.
    pub fn texel(&self, i: u32, j: u32) -> (rgb: (u8, u8, u8))
        requires
            self.wf(),
            self.spec_width() > 0,
            self.spec_height() > 0,
        ensures
            ({
                let ci = if i < self.spec_width() {
                    i as int
                } else {
                    self.spec_width() - 1
                };
                let cj = if j < self.spec_height() {
                    j as int
                } else {
                    self.spec_height() - 1
                };
                let pos = cj * self.spec_bytes_per_scanline() + 3 * ci;
                &&& rgb.0 == self.spec_data()[pos]
                &&& rgb.1 == self.spec_data()[pos + 1]
                &&& rgb.2 == self.spec_data()[pos + 2]
            }),
    {
        let ci = if i >= self.width {
            self.width - 1
        } else {
            i
        };
        let cj = if j >= self.height {
            self.height - 1
        } else {
            j
        };
        // The buffer's length bounds the byte offset, so the offset
        // arithmetic fits in usize.
        let len = self.data.len();
        proof {
            let h = self.spec_height() as int;
            let w = self.spec_width() as int;
            let b = self.spec_bytes_per_scanline() as int;
            assert(len == h * b);
            assert(cj * b + 3 * ci + 2 < h * b) by (nonlinear_arith)
                requires
                    0 <= cj <= h - 1,
                    0 <= ci <= w - 1,
                    b == 3 * w,
                    1 <= h,
                    1 <= w,
            ;
        }
        let pos = (cj as usize) * (self.bytes_per_scanline as usize) + 3 * (ci as usize);
        (self.data[pos], self.data[pos + 1], self.data[pos + 2])
    }
}

} // verus!
