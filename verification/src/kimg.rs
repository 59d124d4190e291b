//! A picture as rows of pixels, and its layout as bytes.

use vstd::prelude::*;

verus! {

/// A picture of `w` by `h` pixels, stored row by row: the pixel in column
/// `x` of row `y` stands at `y * w + x`.
pub struct ImageBuffer {
    pub w: usize,
    pub h: usize,
    pub pixels: Vec<(u8, u8, u8)>,
}

/// The three channels of the pixel that a stream of bytes with `stride`
/// bytes for each pixel holds at place `n`.
pub open spec fn pixel_at(bytes: Seq<u8>, stride: int, n: int) -> (u8, u8, u8) {
    (bytes[stride * n], bytes[stride * n + 1], bytes[stride * n + 2])
}

/// Whether a picture of `w` by `h` pixels can be read from `len` bytes with
/// `stride` bytes for each pixel.
pub open spec fn fits(w: int, h: int, stride: int, len: int) -> bool {
    w * h * stride <= len
}

impl ImageBuffer {
    /// Whether the picture has a pixel for each place.
    pub open spec fn wf(&self) -> bool {
        self.pixels@.len() == self.w * self.h
    }

    /// A black picture of `w` by `h` pixels.
    pub fn new(w: usize, h: usize) -> (img: ImageBuffer)
        requires
            w * h <= usize::MAX,
        ensures
            img.wf(),
            img.w == w,
            img.h == h,
            forall|n: int| 0 <= n < w * h ==> img.pixels@[n] == (0u8, 0u8, 0u8),
    {
        let count = w * h;
        let mut pixels: Vec<(u8, u8, u8)> = Vec::new();
        let mut n: usize = 0;
        while n < count
            invariant
                n <= count,
                pixels@.len() == n,
                forall|m: int| 0 <= m < n ==> pixels@[m] == (0u8, 0u8, 0u8),
            decreases count - n,
        {
            pixels.push((0, 0, 0));
            n = n + 1;
        }
        ImageBuffer { w, h, pixels }
    }

    /// Sets the pixel in column `x` of row `y`.
    pub fn set_px(&mut self, x: usize, y: usize, val: (u8, u8, u8))
        requires
            y * old(self).w + x < old(self).pixels@.len(),
        ensures
            final(self).w == old(self).w,
            final(self).h == old(self).h,
            final(self).pixels@ == old(self).pixels@.update(y * old(self).w + x, val),
    {
        let _len: usize = self.pixels.len();
        assert(0 <= y * self.w) by (nonlinear_arith);
        let at = y * self.w + x;
        self.pixels.set(at, val);
    }

    /// The pixel in column `x` of row `y`.
    pub fn get_px(&self, x: usize, y: usize) -> (val: (u8, u8, u8))
        requires
            y * self.w + x < self.pixels@.len(),
        ensures
            val == self.pixels@[y * self.w + x],
    {
        let _len: usize = self.pixels.len();
        assert(0 <= y * self.w) by (nonlinear_arith);
        self.pixels[y * self.w + x]
    }

    /// The number of bytes that `w * h` pixels of `stride` bytes take, or
    /// `None` where that is more than `limit`.
    fn byte_count(w: usize, h: usize, stride: usize, limit: usize) -> (r: Option<usize>)
        requires
            1 <= stride <= 4,
        ensures
            r is Some <==> fits(w as int, h as int, stride as int, limit as int),
            r matches Some(n) ==> n == w * h && n * stride <= limit,
    {
        if w == 0 || h == 0 {
            assert(w * h * stride == 0) by (nonlinear_arith)
                requires
                    w == 0 || h == 0,
            ;
            assert(w * h == 0) by (nonlinear_arith)
                requires
                    w == 0 || h == 0,
            ;
            return Some(0);
        }
        let per_row = limit / stride / w;
        proof {
            let (wi, hi, si, li) = (w as int, h as int, stride as int, limit as int);
            let q = li / si;
            assert(q * si <= li < (q + 1) * si) by (nonlinear_arith)
                requires
                    q == li / si,
                    si > 0,
                    li >= 0,
            ;
            let p = q / wi;
            assert(p * wi <= q < (p + 1) * wi) by (nonlinear_arith)
                requires
                    p == q / wi,
                    wi > 0,
                    q >= 0,
            ;
            if hi <= p {
                assert(wi * hi * si <= li) by (nonlinear_arith)
                    requires
                        0 <= hi <= p,
                        p * wi <= q,
                        q * si <= li,
                        wi > 0,
                        si > 0,
                ;
                assert(wi * hi <= li) by (nonlinear_arith)
                    requires
                        wi * hi * si <= li,
                        si >= 1,
                        wi * hi >= 0,
                ;
            } else {
                assert(wi * hi * si > li) by (nonlinear_arith)
                    requires
                        hi >= p + 1,
                        q < (p + 1) * wi,
                        li < (q + 1) * si,
                        wi > 0,
                        si > 0,
                ;
            }
        }
        if h <= per_row {
            Some(w * h)
        } else {
            None
        }
    }

    /// The picture that a stream of bytes holds row by row, with `stride`
    /// bytes for each pixel of which the first three are its channels, and
    /// with the rows from top to bottom or, where `flipped`, from bottom to
    /// top. `None` where the stream is too short for `w * h` pixels.
    fn from_bytes(w: usize, h: usize, bytes: &Vec<u8>, stride: usize, flipped: bool) -> (r: Option<
        ImageBuffer,
    >)
        requires
            3 <= stride <= 4,
        ensures
            r is Some <==> fits(w as int, h as int, stride as int, bytes@.len() as int),
            r matches Some(img) ==> img.wf() && img.w == w && img.h == h && forall|x: int, y: int|
                0 <= x < w && 0 <= y < h ==> #[trigger] img.pixels@[y * w + x] == pixel_at(
                    bytes@,
                    stride as int,
                    if flipped {
                        (h - y - 1) * w + x
                    } else {
                        y * w + x
                    },
                ),
    {
        let count = match Self::byte_count(w, h, stride, bytes.len()) {
            Some(n) => n,
            None => {
                return None;
            },
        };
        let ghost (wi, hi, si) = (w as int, h as int, stride as int);
        let mut pixels: Vec<(u8, u8, u8)> = Vec::new();
        let mut y: usize = 0;
        while y < h
            invariant
                3 <= stride <= 4,
                (wi, hi, si) == (w as int, h as int, stride as int),
                count == wi * hi,
                count * si <= bytes@.len() <= usize::MAX,
                y <= h,
                pixels@.len() == y * wi,
                forall|x: int, v: int|
                    0 <= x < wi && 0 <= v < y ==> #[trigger] pixels@[v * wi + x] == pixel_at(
                        bytes@,
                        si,
                        if flipped {
                            (hi - v - 1) * wi + x
                        } else {
                            v * wi + x
                        },
                    ),
            decreases h - y,
        {
            let row = if flipped {
                h - y - 1
            } else {
                y
            };
            proof {
                assert(0 <= row * wi && row * wi + wi <= wi * hi) by (nonlinear_arith)
                    requires
                        0 <= row < hi,
                        0 <= wi,
                ;
                assert(0 <= y * wi && y * wi + wi <= wi * hi) by (nonlinear_arith)
                    requires
                        0 <= y < hi,
                        0 <= wi,
                ;
            }
            let base = row * w;
            let ghost start = pixels@.len() as int;
            let ghost rows = pixels@;
            let mut x: usize = 0;
            while x < w
                invariant
                    3 <= stride <= 4,
                    (wi, hi, si) == (w as int, h as int, stride as int),
                    count == wi * hi,
                    count * si <= bytes@.len() <= usize::MAX,
                    base == row * wi,
                    base + wi <= count,
                    start == y * wi,
                    x <= w,
                    pixels@.len() == start + x,
                    rows.len() == start,
                    forall|n: int| 0 <= n < start ==> pixels@[n] == rows[n],
                    forall|u: int|
                        0 <= u < x ==> #[trigger] pixels@[start + u] == pixel_at(bytes@, si, base + u),
                decreases w - x,
            {
                let n = base + x;
                proof {
                    assert(0 <= stride * n && stride * n + stride <= count * stride)
                        by (nonlinear_arith)
                        requires
                            0 <= n < count,
                            stride > 0,
                    ;
                    assert(count * stride == count * si);
                }
                let at = stride * n;
                pixels.push((bytes[at], bytes[at + 1], bytes[at + 2]));
                x = x + 1;
            }
            proof {
                assert(y * wi + wi == (y + 1) * wi) by (nonlinear_arith);
                assert forall|u: int, v: int| 0 <= u < wi && 0 <= v < y + 1 implies #[trigger] pixels@[v
                    * wi + u] == pixel_at(
                    bytes@,
                    si,
                    if flipped {
                        (hi - v - 1) * wi + u
                    } else {
                        v * wi + u
                    },
                ) by {
                    if v == y {
                        assert(pixels@[start + u] == pixel_at(bytes@, si, base + u));
                    } else {
                        assert(0 <= v * wi + u < y * wi) by (nonlinear_arith)
                            requires
                                0 <= u < wi,
                                0 <= v < y,
                        ;
                        assert(pixels@[v * wi + u] == rows[v * wi + u]);
                    }
                }
            }
            y = y + 1;
        }
        proof {
            assert(hi * wi == wi * hi) by (nonlinear_arith);
        }
        Some(ImageBuffer { w, h, pixels })
    }

    /// The picture that a stream of bytes holds row by row from the top,
    /// three bytes for each pixel: red, green, blue. `None` where the stream
    /// has fewer than `3 * w * h` bytes.
    pub fn from_rgb_bytes(w: usize, h: usize, bytes: &Vec<u8>) -> (r: Option<ImageBuffer>)
        ensures
            r is Some <==> fits(w as int, h as int, 3, bytes@.len() as int),
            r matches Some(img) ==> img.wf() && img.w == w && img.h == h && forall|x: int, y: int|
                0 <= x < w && 0 <= y < h ==> #[trigger] img.pixels@[y * w + x] == pixel_at(
                    bytes@,
                    3,
                    y * w + x,
                ),
    {
        Self::from_bytes(w, h, bytes, 3, false)
    }

    /// The picture that a stream of bytes holds row by row from the bottom,
    /// four bytes for each pixel: red, green, blue and a fourth that is left
    /// out. `None` where the stream has fewer than `4 * w * h` bytes.
    pub fn from_rgba_flipped(w: usize, h: usize, bytes: &Vec<u8>) -> (r: Option<ImageBuffer>)
        ensures
            r is Some <==> fits(w as int, h as int, 4, bytes@.len() as int),
            r matches Some(img) ==> img.wf() && img.w == w && img.h == h && forall|x: int, y: int|
                0 <= x < w && 0 <= y < h ==> #[trigger] img.pixels@[y * w + x] == pixel_at(
                    bytes@,
                    4,
                    (h - y - 1) * w + x,
                ),
    {
        Self::from_bytes(w, h, bytes, 4, true)
    }

    /// The pixels as a stream of bytes: red, green and blue of each pixel,
    /// in the order of the pixels.
    pub fn to_rgb_bytes(&self) -> (data: Vec<u8>)
        ensures
            data@.len() == 3 * self.pixels@.len(),
            forall|n: int|
                0 <= n < self.pixels@.len() ==> pixel_at(data@, 3, n) == #[trigger] self.pixels@[n],
    {
        let mut data: Vec<u8> = Vec::new();
        let mut n: usize = 0;
        while n < self.pixels.len()
            invariant
                n <= self.pixels@.len(),
                data@.len() == 3 * n,
                forall|m: int| 0 <= m < n ==> pixel_at(data@, 3, m) == #[trigger] self.pixels@[m],
            decreases self.pixels@.len() - n,
        {
            let px = self.pixels[n];
            let ghost before = data@;
            data.push(px.0);
            data.push(px.1);
            data.push(px.2);
            proof {
                assert forall|m: int| 0 <= m < n + 1 implies pixel_at(data@, 3, m)
                    == #[trigger] self.pixels@[m] by {
                    if m < n {
                        assert(pixel_at(before, 3, m) == self.pixels@[m]);
                    }
                }
            }
            n = n + 1;
        }
        data
    }
}

} // verus!
