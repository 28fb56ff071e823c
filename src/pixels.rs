use vstd::prelude::*;

use crate::error::CipherError;

verus! {

/// One of the four colour planes of a [`PixelBuffer`].
#[derive(Debug, Clone, Copy, PartialEq, Eq, Structural)]
pub enum Channel {
    Red,
    Green,
    Blue,
    Alpha,
}

/// A decoded raster image: `width × height` pixels held as four channel
/// planes, each in row-major order (the sample of `(x, y)` is at `y * width + x`).
#[derive(Debug, Clone)]
pub struct PixelBuffer {
    pub width: usize,
    pub height: usize,
    pub red: Vec<u8>,
    pub green: Vec<u8>,
    pub blue: Vec<u8>,
    pub alpha: Vec<u8>,
}

impl PixelBuffer {
    /// Number of pixels.
    pub open spec fn area(&self) -> int {
        self.width * self.height
    }

    /// Both sides are positive and every plane holds one sample per pixel.
    pub open spec fn wf(&self) -> bool {
        &&& self.width > 0
        &&& self.height > 0
        &&& self.area() <= usize::MAX
        &&& self.red@.len() == self.area()
        &&& self.green@.len() == self.area()
        &&& self.blue@.len() == self.area()
        &&& self.alpha@.len() == self.area()
    }

    /// The plane of one channel.
    pub open spec fn plane(&self, c: Channel) -> Seq<u8> {
        match c {
            Channel::Red => self.red@,
            Channel::Green => self.green@,
            Channel::Blue => self.blue@,
            Channel::Alpha => self.alpha@,
        }
    }

    /// Two buffers hold the same image.
    pub open spec fn same_image(&self, o: &PixelBuffer) -> bool {
        &&& self.width == o.width
        &&& self.height == o.height
        &&& self.red@ == o.red@
        &&& self.green@ == o.green@
        &&& self.blue@ == o.blue@
        &&& self.alpha@ == o.alpha@
    }

    /// The interleaved RGBA bytes of a buffer.
    pub open spec fn rgba_bytes(&self) -> Seq<u8> {
        Seq::new(
            (4 * self.area()) as nat,
            |k: int|
                if k % 4 == 0 {
                    self.red@[k / 4]
                } else if k % 4 == 1 {
                    self.green@[k / 4]
                } else if k % 4 == 2 {
                    self.blue@[k / 4]
                } else {
                    self.alpha@[k / 4]
                },
        )
    }

    /// Builds a buffer from interleaved RGBA bytes, four per pixel in
    /// row-major order. Refused when a side is zero or the byte count is not
    /// `4 * width * height`.
    pub fn from_rgba(width: usize, height: usize, data: &Vec<u8>) -> (r: Result<PixelBuffer, CipherError>)
        ensures
            match r {
                Ok(b) => {
                    &&& width > 0 && height > 0
                    &&& data@.len() == 4 * width * height
                    &&& b.wf()
                    &&& b.width == width
                    &&& b.height == height
                    &&& b.rgba_bytes() == data@
                },
                Err(e) => {
                    &&& e == CipherError::UnsupportedDimensions
                    &&& !(width > 0 && height > 0 && data@.len() == 4 * width * height)
                },
            },
    {
        if width == 0 || height == 0 || data.len() % 4 != 0 || (data.len() / 4) % width != 0
            || (data.len() / 4) / width != height {
            proof {
                if width > 0 && height > 0 && data@.len() == 4 * width * height {
                    lemma_area_split(data@.len() as int, 4, width as int, height as int);
                }
            }
            return Err(CipherError::UnsupportedDimensions);
        }
        let n: usize = data.len() / 4;
        proof {
            lemma_area_join(data@.len() as int, 4, width as int, height as int);
        }
        let mut red: Vec<u8> = Vec::new();
        let mut green: Vec<u8> = Vec::new();
        let mut blue: Vec<u8> = Vec::new();
        let mut alpha: Vec<u8> = Vec::new();
        let mut i: usize = 0;
        while i < n
            invariant
                n == data@.len() / 4,
                data@.len() == 4 * n,
                data@.len() <= usize::MAX,
                i <= n,
                red@.len() == i,
                green@.len() == i,
                blue@.len() == i,
                alpha@.len() == i,
                forall|j: int| 0 <= j < i ==> red@[j] == data@[4 * j],
                forall|j: int| 0 <= j < i ==> green@[j] == data@[4 * j + 1],
                forall|j: int| 0 <= j < i ==> blue@[j] == data@[4 * j + 2],
                forall|j: int| 0 <= j < i ==> alpha@[j] == data@[4 * j + 3],
            decreases n - i,
        {
            assert(4 * i + 3 < data@.len());
            red.push(data[4 * i]);
            green.push(data[4 * i + 1]);
            blue.push(data[4 * i + 2]);
            alpha.push(data[4 * i + 3]);
            i = i + 1;
        }
        let b = PixelBuffer { width, height, red, green, blue, alpha };
        assert(b.rgba_bytes() =~= data@) by {
            assert forall|k: int| 0 <= k < data@.len() implies #[trigger] b.rgba_bytes()[k] == data@[k] by {
                let j = k / 4;
                assert(k == 4 * j + k % 4);
                assert(0 <= j < n);
            }
        }
        Ok(b)
    }

    /// Builds a buffer from interleaved RGB bytes, three per pixel in
    /// row-major order, with a fully opaque alpha plane. Refused when a side
    /// is zero or the byte count is not `3 * width * height`.
    pub fn from_rgb(width: usize, height: usize, data: &Vec<u8>) -> (r: Result<PixelBuffer, CipherError>)
        ensures
            match r {
                Ok(b) => {
                    &&& width > 0 && height > 0
                    &&& data@.len() == 3 * width * height
                    &&& b.wf()
                    &&& b.width == width
                    &&& b.height == height
                    &&& forall|i: int| 0 <= i < b.area() ==> #[trigger] b.red@[i] == data@[3 * i]
                        && b.green@[i] == data@[3 * i + 1] && b.blue@[i] == data@[3 * i + 2] && b.alpha@[i] == 255
                },
                Err(e) => {
                    &&& e == CipherError::UnsupportedDimensions
                    &&& !(width > 0 && height > 0 && data@.len() == 3 * width * height)
                },
            },
    {
        if width == 0 || height == 0 || data.len() % 3 != 0 || (data.len() / 3) % width != 0
            || (data.len() / 3) / width != height {
            proof {
                if width > 0 && height > 0 && data@.len() == 3 * width * height {
                    lemma_area_split(data@.len() as int, 3, width as int, height as int);
                }
            }
            return Err(CipherError::UnsupportedDimensions);
        }
        let n: usize = data.len() / 3;
        proof {
            lemma_area_join(data@.len() as int, 3, width as int, height as int);
        }
        let mut red: Vec<u8> = Vec::new();
        let mut green: Vec<u8> = Vec::new();
        let mut blue: Vec<u8> = Vec::new();
        let mut alpha: Vec<u8> = Vec::new();
        let mut i: usize = 0;
        while i < n
            invariant
                data@.len() == 3 * n,
                data@.len() <= usize::MAX,
                i <= n,
                red@.len() == i,
                green@.len() == i,
                blue@.len() == i,
                alpha@.len() == i,
                forall|j: int| 0 <= j < i ==> #[trigger] red@[j] == data@[3 * j]
                    && green@[j] == data@[3 * j + 1] && blue@[j] == data@[3 * j + 2] && alpha@[j] == 255,
            decreases n - i,
        {
            assert(3 * i + 2 < data@.len());
            red.push(data[3 * i]);
            green.push(data[3 * i + 1]);
            blue.push(data[3 * i + 2]);
            alpha.push(255);
            i = i + 1;
        }
        Ok(PixelBuffer { width, height, red, green, blue, alpha })
    }

    /// The interleaved RGBA bytes, four per pixel in row-major order.
    pub fn to_rgba(&self) -> (r: Vec<u8>)
        requires
            self.wf(),
            4 * self.area() <= usize::MAX,
        ensures
            r@ == self.rgba_bytes(),
    {
        let n: usize = self.red.len();
        let mut out: Vec<u8> = Vec::new();
        let mut i: usize = 0;
        while i < n
            invariant
                self.wf(),
                n == self.area(),
                4 * n <= usize::MAX,
                i <= n,
                out@.len() == 4 * i,
                forall|k: int| 0 <= k < 4 * i ==> #[trigger] out@[k] == self.rgba_bytes()[k],
            decreases n - i,
        {
            out.push(self.red[i]);
            out.push(self.green[i]);
            out.push(self.blue[i]);
            out.push(self.alpha[i]);
            i = i + 1;
        }
        assert(out@ =~= self.rgba_bytes());
        out
    }

    /// A new buffer whose channel `c` is `f` applied to every sample of
    /// channel `c` of this one; the other channels are copied.
    pub fn map_channel<F: Fn(u8) -> u8>(&self, c: Channel, f: F) -> (r: PixelBuffer)
        requires
            self.wf(),
            forall|v: u8| #[trigger] f.requires((v,)),
        ensures
            r.wf(),
            r.width == self.width,
            r.height == self.height,
            r.plane(c).len() == self.plane(c).len(),
            forall|i: int| 0 <= i < self.area() ==> f.ensures((#[trigger] self.plane(c)[i],), r.plane(c)[i]),
            forall|d: Channel| d != c ==> #[trigger] r.plane(d) == self.plane(d),
    {
        let src = match c {
            Channel::Red => &self.red,
            Channel::Green => &self.green,
            Channel::Blue => &self.blue,
            Channel::Alpha => &self.alpha,
        };
        let mut mapped: Vec<u8> = Vec::with_capacity(src.len());
        let mut i: usize = 0;
        while i < src.len()
            invariant
                forall|v: u8| #[trigger] f.requires((v,)),
                i <= src@.len(),
                mapped@.len() == i,
                forall|j: int| 0 <= j < i ==> f.ensures((#[trigger] src@[j],), mapped@[j]),
            decreases src@.len() - i,
        {
            let v = f(src[i]);
            mapped.push(v);
            i = i + 1;
        }
        let r = match c {
            Channel::Red => PixelBuffer {
                width: self.width,
                height: self.height,
                red: mapped,
                green: self.green.clone(),
                blue: self.blue.clone(),
                alpha: self.alpha.clone(),
            },
            Channel::Green => PixelBuffer {
                width: self.width,
                height: self.height,
                red: self.red.clone(),
                green: mapped,
                blue: self.blue.clone(),
                alpha: self.alpha.clone(),
            },
            Channel::Blue => PixelBuffer {
                width: self.width,
                height: self.height,
                red: self.red.clone(),
                green: self.green.clone(),
                blue: mapped,
                alpha: self.alpha.clone(),
            },
            Channel::Alpha => PixelBuffer {
                width: self.width,
                height: self.height,
                red: self.red.clone(),
                green: self.green.clone(),
                blue: self.blue.clone(),
                alpha: mapped,
            },
        };
        r
    }

    /// The sample of channel `c` at `(x, y)`; `OutOfBounds` outside the image.
    pub fn get(&self, x: usize, y: usize, c: Channel) -> (r: Result<u8, CipherError>)
        requires
            self.wf(),
        ensures
            x < self.width && y < self.height ==> r == Ok::<u8, CipherError>(self.plane(c)[y * self.width + x]),
            !(x < self.width && y < self.height) ==> r == Err::<u8, CipherError>(CipherError::OutOfBounds),
    {
        if x >= self.width || y >= self.height {
            return Err(CipherError::OutOfBounds);
        }
        let i = pixel_index(x, y, self.width, self.height);
        let v = match c {
            Channel::Red => self.red[i],
            Channel::Green => self.green[i],
            Channel::Blue => self.blue[i],
            Channel::Alpha => self.alpha[i],
        };
        Ok(v)
    }

    /// Writes the sample of channel `c` at `(x, y)`; `OutOfBounds` (and no
    /// change) outside the image.
    pub fn set(&mut self, x: usize, y: usize, c: Channel, v: u8) -> (r: Result<(), CipherError>)
        requires
            old(self).wf(),
        ensures
            final(self).wf(),
            final(self).width == old(self).width,
            final(self).height == old(self).height,
            x < old(self).width && y < old(self).height ==> {
                &&& r == Ok::<(), CipherError>(())
                &&& forall|d: Channel| #[trigger] final(self).plane(d) == if d == c {
                    old(self).plane(d).update(y * old(self).width + x, v)
                } else {
                    old(self).plane(d)
                }
            },
            !(x < old(self).width && y < old(self).height) ==> {
                &&& r == Err::<(), CipherError>(CipherError::OutOfBounds)
                &&& *final(self) == *old(self)
            },
    {
        if x >= self.width || y >= self.height {
            return Err(CipherError::OutOfBounds);
        }
        let i = pixel_index(x, y, self.width, self.height);
        match c {
            Channel::Red => self.red.set(i, v),
            Channel::Green => self.green.set(i, v),
            Channel::Blue => self.blue.set(i, v),
            Channel::Alpha => self.alpha.set(i, v),
        }
        Ok(())
    }
}

proof fn lemma_area_split(len: int, k: int, w: int, h: int)
    requires
        k > 0,
        w > 0,
        h > 0,
        len == k * w * h,
    ensures
        len % k == 0,
        (len / k) % w == 0,
        (len / k) / w == h,
{
    assert(len == k * (w * h) && len == (w * h) * k && w * h == h * w) by (nonlinear_arith)
        requires len == k * w * h;
    vstd::arithmetic::div_mod::lemma_mod_multiples_basic(w * h, k);
    vstd::arithmetic::div_mod::lemma_div_multiples_vanish(w * h, k);
    vstd::arithmetic::div_mod::lemma_mod_multiples_basic(h, w);
    vstd::arithmetic::div_mod::lemma_div_multiples_vanish(h, w);
}

proof fn lemma_area_join(len: int, k: int, w: int, h: int)
    requires
        k > 0,
        w > 0,
        len >= 0,
        len % k == 0,
        (len / k) % w == 0,
        (len / k) / w == h,
    ensures
        len == k * w * h,
        len / k == w * h,
{
    vstd::arithmetic::div_mod::lemma_fundamental_div_mod(len, k);
    vstd::arithmetic::div_mod::lemma_fundamental_div_mod(len / k, w);
    assert(k * (w * h) == k * w * h) by (nonlinear_arith);
}

/// The row-major index `y * width + x` of an in-range coordinate.
fn pixel_index(x: usize, y: usize, width: usize, height: usize) -> (i: usize)
    requires
        x < width,
        y < height,
        width * height <= usize::MAX,
    ensures
        i == y * width + x,
        i < width * height,
{
    proof {
        assert(y * width + x < width * height) by (nonlinear_arith)
            requires x < width, y < height;
    }
    y * width + x
}

} // verus!
