use vstd::prelude::*;

use crate::errors::Error;
use crate::pixel::Pixel;

verus! {

/// The mathematical shape of a bitmap: dimensions in pixels, the raw byte
/// buffer (row-major, 4 bytes per pixel, RGBA), and the dirty flag that marks
/// the buffer as changed since its last texture synchronization.
pub struct BitmapView {
    pub width: nat,
    pub height: nat,
    pub data: Seq<u8>,
    pub dirty: bool,
}

impl BitmapView {
    /// The buffer always holds exactly `width * height` four-byte pixels.
    pub open spec fn wf(self) -> bool {
        self.data.len() == self.width * self.height * 4
    }

    pub open spec fn in_bounds(self, x: int, y: int) -> bool {
        0 <= x < self.width && 0 <= y < self.height
    }

    /// Byte offset of the first channel of pixel `(x, y)`.
    pub open spec fn offset(self, x: int, y: int) -> int {
        4 * (y * self.width + x)
    }

    /// The pixel stored at `(x, y)`.
    pub open spec fn px(self, x: int, y: int) -> Pixel {
        let i = self.offset(x, y);
        Pixel {
            r: self.data[i],
            g: self.data[i + 1],
            b: self.data[i + 2],
            a: self.data[i + 3],
        }
    }

    /// The bitmap after writing `p` at `(x, y)`: the four channel bytes are
    /// replaced and the dirty flag is raised, whatever it was before.
    pub open spec fn with_px(self, x: int, y: int, p: Pixel) -> BitmapView {
        let i = self.offset(x, y);
        BitmapView {
            width: self.width,
            height: self.height,
            data: self.data.update(i, p.r).update(i + 1, p.g).update(i + 2, p.b).update(
                i + 3,
                p.a,
            ),
            dirty: true,
        }
    }
}

/// Pixel cells are laid out row-major, so an in-bounds cell's four bytes lie
/// inside the buffer.
pub proof fn lemma_offset_in_range(v: BitmapView, x: int, y: int)
    requires
        v.wf(),
        v.in_bounds(x, y),
    ensures
        0 <= v.offset(x, y),
        v.offset(x, y) + 4 <= v.data.len(),
{
    assert(0 <= y * v.width + x && (y * v.width + x) + 1 <= v.width * v.height)
        by (nonlinear_arith)
        requires
            0 <= x < v.width,
            0 <= y < v.height,
    ;
}

/// Distinct cells occupy disjoint byte ranges.
proof fn lemma_offsets_disjoint(v: BitmapView, x: int, y: int, i: int, j: int)
    requires
        v.wf(),
        v.in_bounds(x, y),
        v.in_bounds(i, j),
        !(i == x && j == y),
    ensures
        v.offset(i, j) + 4 <= v.offset(x, y) || v.offset(x, y) + 4 <= v.offset(i, j),
{
    assert((y * v.width + x) + 1 <= j * v.width + i || (j * v.width + i) + 1 <= y * v.width + x)
        by (nonlinear_arith)
        requires
            0 <= x < v.width,
            0 <= i < v.width,
            0 <= y,
            0 <= j,
            !(i == x && j == y),
    ;
}

/// Writing one pixel changes exactly that cell: the written cell reads back
/// as the written value and every other cell is untouched. This is the
/// round-trip law `get_pixel` after `set_pixel` relies on.
pub proof fn lemma_with_px(v: BitmapView, x: int, y: int, p: Pixel, i: int, j: int)
    requires
        v.wf(),
        v.in_bounds(x, y),
        v.in_bounds(i, j),
    ensures
        v.with_px(x, y, p).wf(),
        i == x && j == y ==> v.with_px(x, y, p).px(i, j) == p,
        !(i == x && j == y) ==> v.with_px(x, y, p).px(i, j) == v.px(i, j),
{
    lemma_offset_in_range(v, x, y);
    lemma_offset_in_range(v, i, j);
    if !(i == x && j == y) {
        lemma_offsets_disjoint(v, x, y, i, j);
    }
}

/// Writing a pixel and reading the same cell back yields exactly the written
/// value, for every in-bounds cell of every well-formed bitmap.
pub proof fn lemma_set_then_get(v: BitmapView, x: int, y: int, p: Pixel)
    requires
        v.wf(),
        v.in_bounds(x, y),
    ensures
        v.with_px(x, y, p).px(x, y) == p,
{
    lemma_with_px(v, x, y, p, x, y);
}

/// Whether the half-open rectangle `[x, x+rw) x [y, y+rh)` lies entirely
/// inside the bitmap. An empty rectangle has no cells, so it always fits.
pub open spec fn rect_fits(v: BitmapView, x: int, y: int, rw: int, rh: int) -> bool {
    rw == 0 || rh == 0 || (x + rw <= v.width && y + rh <= v.height)
}

/// Whether cell `(i, j)` lies in the half-open rectangle anchored at `(x, y)`.
pub open spec fn in_rect(x: int, y: int, rw: int, rh: int, i: int, j: int) -> bool {
    x <= i < x + rw && y <= j < y + rh
}

/// What decoding a byte stream yields when it is a supported image encoding:
/// the image's dimensions and its pixels as raw RGBA bytes.
pub struct DecodedImage {
    pub width: nat,
    pub height: nat,
    pub data: Seq<u8>,
}

/// The image, if any, encoded by a byte stream. Decoding depends on the bytes
/// alone, so the result has a name; nothing here says what the name is on
/// given bytes.
pub uninterp spec fn decoded_rgba(bytes: Seq<u8>) -> Option<DecodedImage>;

/// Relies on image::load_from_memory to decode the bytes, and on
/// DynamicImage::to_rgba8 with ImageBuffer::dimensions and into_raw to read
/// the result out as plain values: the whole chain is a function of the bytes
/// alone.
#[verifier::external_body]
fn decode_rgba_bytes(bytes: &[u8]) -> (r: Option<(u32, u32, Vec<u8>)>)
    ensures
        match r {
            Some(t) => decoded_rgba(bytes@) == Some(
                DecodedImage { width: t.0 as nat, height: t.1 as nat, data: t.2@ },
            ),
            None => decoded_rgba(bytes@) is None,
        },
{
    match image::load_from_memory(bytes) {
        Ok(img) => {
            let rgba = img.to_rgba8();
            let (w, h) = rgba.dimensions();
            Some((w, h, rgba.into_raw()))
        },
        Err(_) => None,
    }
}

/// An owned RGBA pixel buffer with dirty tracking. The buffer length always
/// equals `width * height * 4`; any pixel write raises the dirty flag.
#[derive(Debug)]
pub struct Bitmap {
    raw: Vec<u8>,
    width: u32,
    height: u32,
    dirty: bool,
}

impl View for Bitmap {
    type V = BitmapView;

    closed spec fn view(&self) -> BitmapView {
        BitmapView {
            width: self.width as nat,
            height: self.height as nat,
            data: self.raw@,
            dirty: self.dirty,
        }
    }
}

impl Bitmap {
    /// Allocates a `width` by `height` bitmap filled with fully opaque white,
    /// already marked dirty so the first sync uploads it. Zero dimensions are
    /// rejected with `InvalidDimensions`; every non-zero request succeeds.
    pub fn allocate(width: u32, height: u32) -> (r: Result<Bitmap, Error>)
        requires
            width * height * 4 <= usize::MAX,
        ensures
            match r {
                Ok(b) => {
                    &&& width > 0 && height > 0
                    &&& b@.wf()
                    &&& b@.width == width
                    &&& b@.height == height
                    &&& b@.dirty
                    &&& forall|k: int| 0 <= k < b@.data.len() ==> b@.data[k] == 0xffu8
                },
                Err(e) => e == Error::InvalidDimensions && (width == 0 || height == 0),
            },
    {
        if width == 0 || height == 0 {
            return Err(Error::InvalidDimensions);
        }
        proof {
            assert(width * height <= width * height * 4) by (nonlinear_arith)
                requires
                    width >= 0,
                    height >= 0,
            ;
        }
        let len: usize = (width as usize) * (height as usize) * 4;
        let mut raw: Vec<u8> = Vec::new();
        let mut k: usize = 0;
        while k < len
            invariant
                k <= len,
                raw@.len() == k,
                forall|m: int| 0 <= m < k ==> raw@[m] == 0xffu8,
            decreases len - k,
        {
            raw.push(0xff);
            k = k + 1;
        }
        Ok(Bitmap { raw, width, height, dirty: true })
    }

    /// The bitmap's width in pixels.
    pub fn width(&self) -> (w: u32)
        ensures
            w == self@.width,
    {
        self.width
    }

    /// The bitmap's height in pixels.
    pub fn height(&self) -> (h: u32)
        ensures
            h == self@.height,
    {
        self.height
    }

    /// Whether the buffer has changed since the last texture sync.
    pub fn is_dirty(&self) -> (d: bool)
        ensures
            d == self@.dirty,
    {
        self.dirty
    }

    /// Lowers the dirty flag, recording that a texture now reflects the
    /// buffer. Everything else is untouched.
    pub fn clear_dirty(&mut self)
        ensures
            final(self)@ == (BitmapView { dirty: false, ..old(self)@ }),
    {
        self.dirty = false;
    }

    /// A copy of the raw buffer, as a texture upload would read it.
    pub fn snapshot_data(&self) -> (d: Vec<u8>)
        ensures
            d@ == self@.data,
    {
        let mut d: Vec<u8> = Vec::new();
        let n = self.raw.len();
        let mut k: usize = 0;
        while k < n
            invariant
                k <= n,
                n == self.raw@.len(),
                d@ == self.raw@.subrange(0, k as int),
            decreases n - k,
        {
            d.push(self.raw[k]);
            proof {
                assert(d@ =~= self.raw@.subrange(0, k + 1 as int));
            }
            k = k + 1;
        }
        proof {
            assert(d@ =~= self.raw@);
        }
        d
    }

    /// Reads the pixel at `(x, y)`. Coordinates at or past the edge are
    /// rejected with `OutOfBounds`: no wraparound, no clamping.
    pub fn get_pixel(&self, x: u32, y: u32) -> (r: Result<Pixel, Error>)
        requires
            self@.wf(),
        ensures
            match r {
                Ok(p) => self@.in_bounds(x as int, y as int) && p == self@.px(x as int, y as int),
                Err(e) => e == Error::OutOfBounds && !self@.in_bounds(x as int, y as int),
            },
    {
        if x >= self.width || y >= self.height {
            return Err(Error::OutOfBounds);
        }
        proof {
            lemma_offset_in_range(self@, x as int, y as int);
        }
        // the buffer length is a usize, so every in-range offset fits in one
        let n = self.raw.len();
        let i: usize = 4 * ((y as usize) * (self.width as usize) + (x as usize));
        Ok(Pixel { r: self.raw[i], g: self.raw[i + 1], b: self.raw[i + 2], a: self.raw[i + 3] })
    }

    /// Writes `p` at `(x, y)` with the same bounds contract as `get_pixel`,
    /// and raises the dirty flag unconditionally, even if the written value
    /// equals the old one: dirtiness signals "needs re-sync", not "changed".
    pub fn set_pixel(&mut self, x: u32, y: u32, p: Pixel) -> (r: Result<(), Error>)
        requires
            old(self)@.wf(),
        ensures
            final(self)@.wf(),
            match r {
                Ok(()) => old(self)@.in_bounds(x as int, y as int) && final(self)@ == old(
                    self,
                )@.with_px(x as int, y as int, p),
                Err(e) => {
                    &&& e == Error::OutOfBounds
                    &&& !old(self)@.in_bounds(x as int, y as int)
                    &&& *final(self) == *old(self)
                },
            },
    {
        if x >= self.width || y >= self.height {
            return Err(Error::OutOfBounds);
        }
        proof {
            lemma_offset_in_range(self@, x as int, y as int);
        }
        // the buffer length is a usize, so every in-range offset fits in one
        let n = self.raw.len();
        let i: usize = 4 * ((y as usize) * (self.width as usize) + (x as usize));
        self.raw[i] = p.r;
        self.raw[i + 1] = p.g;
        self.raw[i + 2] = p.b;
        self.raw[i + 3] = p.a;
        self.dirty = true;
        Ok(())
    }

    /// Wraps a decoded image's plain values as a bitmap, already dirty. The
    /// buffer must hold exactly `width * height` four-byte pixels; any other
    /// length is not an RGBA image of those dimensions and is rejected as a
    /// failed decode.
    pub fn from_decoded(width: u32, height: u32, data: Vec<u8>) -> (r: Result<Bitmap, Error>)
        ensures
            match r {
                Ok(b) => {
                    &&& data@.len() == width * height * 4
                    &&& b@ == (BitmapView {
                        width: width as nat,
                        height: height as nat,
                        data: data@,
                        dirty: true,
                    })
                    &&& b@.wf()
                },
                Err(e) => e == Error::DecodeError && data@.len() != width * height * 4,
            },
    {
        proof {
            assert((width as int) * (height as int) * 4 <= 0xffff_ffff * 0xffff_ffff * 4)
                by (nonlinear_arith)
                requires
                    0 <= width as int <= 0xffff_ffff,
                    0 <= height as int <= 0xffff_ffff,
            ;
        }
        let expected: u128 = (width as u128) * (height as u128) * 4;
        if (data.len() as u128) != expected {
            return Err(Error::DecodeError);
        }
        Ok(Bitmap { raw: data, width, height, dirty: true })
    }

    /// Decodes image bytes into a fresh bitmap whose dimensions come from the
    /// decoded image, marked dirty so the first sync uploads it. Bytes that
    /// are not a supported image encoding fail with `DecodeError`; success is
    /// exactly a decode whose buffer matches its own dimensions.
    pub fn decode(bytes: &[u8]) -> (r: Result<Bitmap, Error>)
        ensures
            match r {
                Ok(b) => {
                    &&& decoded_rgba(bytes@) matches Some(d) && d.data.len() == d.width * d.height
                        * 4 && b@ == (BitmapView {
                        width: d.width,
                        height: d.height,
                        data: d.data,
                        dirty: true,
                    })
                    &&& b@.wf()
                },
                Err(e) => {
                    &&& e == Error::DecodeError
                    &&& !(decoded_rgba(bytes@) matches Some(d) && d.data.len() == d.width * d.height
                        * 4)
                },
            },
    {
        match decode_rgba_bytes(bytes) {
            None => Err(Error::DecodeError),
            Some((w, h, data)) => Self::from_decoded(w, h, data),
        }
    }

    /// Fills the half-open rectangle `[x, x+rw) x [y, y+rh)` with `p`,
    /// writing row-major, top row first. If any cell of a non-empty rectangle
    /// falls outside the bitmap, nothing is written and `OutOfBounds` comes
    /// back. On success the dirty flag is raised unconditionally, exactly as
    /// `set_pixel` raises it, even for an empty rectangle.
    pub fn fill_rect(&mut self, x: u32, y: u32, rw: u32, rh: u32, p: Pixel) -> (r: Result<
        (),
        Error,
    >)
        requires
            old(self)@.wf(),
        ensures
            final(self)@.wf(),
            match r {
                Ok(()) => {
                    &&& rect_fits(old(self)@, x as int, y as int, rw as int, rh as int)
                    &&& final(self)@.width == old(self)@.width
                    &&& final(self)@.height == old(self)@.height
                    &&& final(self)@.dirty
                    &&& forall|i: int, j: int|
                        old(self)@.in_bounds(i, j) ==> final(self)@.px(i, j) == (if in_rect(
                            x as int,
                            y as int,
                            rw as int,
                            rh as int,
                            i,
                            j,
                        ) {
                            p
                        } else {
                            old(self)@.px(i, j)
                        })
                },
                Err(e) => {
                    &&& e == Error::OutOfBounds
                    &&& !rect_fits(old(self)@, x as int, y as int, rw as int, rh as int)
                    &&& *final(self) == *old(self)
                },
            },
    {
        if rw == 0 || rh == 0 {
            self.dirty = true;
            return Ok(());
        }
        if (x as u64) + (rw as u64) > (self.width as u64) || (y as u64) + (rh as u64) > (
        self.height as u64) {
            return Err(Error::OutOfBounds);
        }
        let ghost v0 = self@;
        let x_end: u32 = x + rw;
        let y_end: u32 = y + rh;
        let mut j: u32 = y;
        while j < y_end
            invariant
                self@.wf(),
                self@.width == v0.width,
                self@.height == v0.height,
                v0.wf(),
                y <= j <= y_end,
                x_end == x + rw,
                y_end == y + rh,
                x_end <= v0.width,
                y_end <= v0.height,
                forall|a: int, b: int|
                    v0.in_bounds(a, b) ==> self@.px(a, b) == (if x <= a < x_end && y <= b < j {
                        p
                    } else {
                        v0.px(a, b)
                    }),
            decreases y_end - j,
        {
            let mut i: u32 = x;
            while i < x_end
                invariant
                    self@.wf(),
                    self@.width == v0.width,
                    self@.height == v0.height,
                    v0.wf(),
                    y <= j < y_end,
                    x <= i <= x_end,
                    x_end == x + rw,
                    y_end == y + rh,
                    x_end <= v0.width,
                    y_end <= v0.height,
                    forall|a: int, b: int|
                        v0.in_bounds(a, b) ==> self@.px(a, b) == (if x <= a < x_end && (b < j || (b
                            == j && a < i)) && y <= b {
                            p
                        } else {
                            v0.px(a, b)
                        }),
                decreases x_end - i,
            {
                let ghost pre = self@;
                let res = self.set_pixel(i, j, p);
                proof {
                    assert(pre.in_bounds(i as int, j as int));
                    assert(res is Ok);
                    assert forall|a: int, b: int| v0.in_bounds(a, b) implies self@.px(a, b) == (
                    if x <= a < x_end && (b < j || (b == j && a < i + 1)) && y <= b {
                        p
                    } else {
                        v0.px(a, b)
                    }) by {
                        lemma_with_px(pre, i as int, j as int, p, a, b);
                    }
                }
                i = i + 1;
            }
            j = j + 1;
        }
        self.dirty = true;
        Ok(())
    }
}

} // verus!
