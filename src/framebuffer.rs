use vstd::prelude::*;
use crate::rendering::{black, Color};

verus! {

/// Pixel `(x, y)` of a `w * h` grid has its index `x + y * w` inside the grid.
pub proof fn lemma_pixel_index(x: int, y: int, w: int, h: int)
    requires
        0 <= x < w,
        0 <= y < h,
    ensures
        0 <= x + y * w < w * h,
        0 <= y * w,
{
    assert(0 <= y * w) by (nonlinear_arith)
        requires 0 <= y, 0 < w;
    assert(x + y * w < w * h) by (nonlinear_arith)
        requires x < w, y + 1 <= h, 0 <= y, 0 < w;
}

/// A matrix of rendered pixels, row-major from the top-left corner, with
/// a raw view of three bytes (R, G, B) for each pixel.
pub trait RenderTarget {
    /// The pixels in row-major order; pixel `(x, y)` stands at `x + y * width`.
    spec fn target_view(&self) -> Seq<Color>;

    spec fn target_wf(&self) -> bool;

    spec fn target_width(&self) -> int;

    spec fn target_height(&self) -> int;

    proof fn lemma_target_len(&self)
        requires
            self.target_wf(),
        ensures
            self.target_view().len() == self.target_width() * self.target_height(),
            0 < self.target_width(),
            0 < self.target_height(),
            3 * (self.target_width() * self.target_height()) <= u32::MAX,
    ;

    /// The width, in pixels.
    fn width(&self) -> (w: u32)
        ensures
            w == self.target_width(),
    ;

    /// The height, in pixels.
    fn height(&self) -> (h: u32)
        ensures
            h == self.target_height(),
    ;

    /// The raw bytes: row-major, three per pixel, in the order R, G, B.
    fn as_bytes(&self) -> (b: &[u8])
        requires
            self.target_wf(),
        ensures
            b@.len() == 3 * self.target_view().len(),
            forall|i: int| 0 <= i < self.target_view().len() ==> {
                &&& #[trigger] self.target_view()[i].r == b@[3 * i]
                &&& self.target_view()[i].g == b@[3 * i + 1]
                &&& self.target_view()[i].b == b@[3 * i + 2]
            },
    ;

    /// Sets every pixel to `value`.
    fn clear(&mut self, value: Color)
        requires
            old(self).target_wf(),
        ensures
            final(self).target_wf(),
            final(self).target_width() == old(self).target_width(),
            final(self).target_height() == old(self).target_height(),
            final(self).target_view() == Seq::new(old(self).target_view().len(), |i: int| value),
    ;

    /// Sets pixel `(x, y)`.
    fn set(&mut self, x: u32, y: u32, value: Color)
        requires
            old(self).target_wf(),
            x < old(self).target_width(),
            y < old(self).target_height(),
        ensures
            final(self).target_wf(),
            final(self).target_width() == old(self).target_width(),
            final(self).target_height() == old(self).target_height(),
            final(self).target_view() == old(self).target_view().update(
                x + y * old(self).target_width(),
                value,
            ),
    ;

    /// Pixel `(x, y)`.
    fn get(&self, x: u32, y: u32) -> (c: Color)
        requires
            self.target_wf(),
            x < self.target_width(),
            y < self.target_height(),
        ensures
            c == self.target_view()[x + y * self.target_width()],
    ;
}

/// A render target held in memory: `width * height` pixels, row-major from
/// the top-left corner, three bytes (R, G, B) for each.
#[derive(Debug)]
pub struct FrameBuffer {
    width: u32,
    height: u32,
    pixels: Vec<u8>,
}

impl View for FrameBuffer {
    type V = Seq<Color>;

    /// The pixels in row-major order; pixel `(x, y)` stands at `x + y * width`.
    closed spec fn view(&self) -> Seq<Color> {
        Seq::new(
            (self.width * self.height) as nat,
            |i: int|
                Color { r: self.pixels@[3 * i], g: self.pixels@[3 * i + 1], b: self.pixels@[3 * i + 2] },
        )
    }
}

impl FrameBuffer {
    pub closed spec fn width_spec(&self) -> int {
        self.width as int
    }

    pub closed spec fn height_spec(&self) -> int {
        self.height as int
    }

    /// At least two pixels in each direction (a single row or column has no
    /// `u` or `v` range to map), and the raw bytes fit the `u32` range.
    pub closed spec fn wf(&self) -> bool {
        &&& 2 <= self.width
        &&& 2 <= self.height
        &&& 3 * (self.width * self.height) <= u32::MAX
        &&& self.pixels@.len() == 3 * (self.width * self.height)
    }

    /// The bytes of the raw view (three per pixel) of a well-formed buffer.
    pub proof fn lemma_wf_len(&self)
        requires
            self.wf(),
        ensures
            self@.len() == self.width_spec() * self.height_spec(),
            2 <= self.width_spec(),
            2 <= self.height_spec(),
            3 * (self.width_spec() * self.height_spec()) <= u32::MAX,
    {
    }

    /// A black buffer of `width * height` pixels, or `None` when a dimension
    /// is below two pixels or the buffer's byte count exceeds `u32::MAX`.
    pub fn try_new(width: u32, height: u32) -> (fb: Option<FrameBuffer>)
        ensures
            fb is Some <==> (2 <= width && 2 <= height && 3 * (width * height) <= u32::MAX),
            fb matches Some(b) ==> {
                &&& b.wf()
                &&& b.width_spec() == width
                &&& b.height_spec() == height
                &&& b@ == Seq::new((width * height) as nat, |i: int| black_spec())
            },
    {
        if width < 2 || height < 2 {
            return None;
        }
        proof {
            assert(width * height <= 0xffff_ffff * 0xffff_ffff) by (nonlinear_arith)
                requires width <= 0xffff_ffff, height <= 0xffff_ffff;
        }
        let bytes: u128 = 3 * (width as u128 * height as u128);
        if bytes > u32::MAX as u128 {
            None
        } else {
            Some(FrameBuffer::new(width, height))
        }
    }

    /// A black buffer of `width * height` pixels.
    pub fn new(width: u32, height: u32) -> (fb: FrameBuffer)
        requires
            2 <= width,
            2 <= height,
            3 * (width * height) <= u32::MAX,
        ensures
            fb.wf(),
            fb.width_spec() == width,
            fb.height_spec() == height,
            fb@ == Seq::new((width * height) as nat, |i: int| black_spec()),
    {
        let count: u32 = width * height;
        let mut pixels: Vec<u8> = Vec::with_capacity((3 * count) as usize);
        let c = black();
        let mut i: u32 = 0;
        while i < count
            invariant
                i <= count,
                count == width * height,
                3 * count <= u32::MAX,
                c == black_spec(),
                pixels@.len() == 3 * i,
                forall|j: int| 0 <= j < pixels@.len() ==> pixels@[j] == 0,
            decreases count - i,
        {
            pixels.push(c.r);
            pixels.push(c.g);
            pixels.push(c.b);
            i = i + 1;
        }
        let fb = FrameBuffer { width, height, pixels };
        assert(fb@ =~= Seq::new((width * height) as nat, |i: int| black_spec()));
        fb
    }

    /// The number of pixels.
    pub fn pixel_count(&self) -> (n: usize)
        requires
            self.wf(),
        ensures
            n == self@.len(),
    {
        (self.width * self.height) as usize
    }

    /// The pixels as `0x00RRGGBB` words, row-major, for window systems
    /// that take that layout.
    pub fn to_0rgb(&self) -> (r: Vec<u32>)
        requires
            self.wf(),
        ensures
            r@.len() == self@.len(),
            forall|i: int| 0 <= i < r@.len() ==>
                #[trigger] r@[i] == self@[i].r * 65536 + self@[i].g * 256 + self@[i].b,
    {
        let count: usize = (self.width * self.height) as usize;
        let mut out: Vec<u32> = Vec::with_capacity(count);
        let mut i: usize = 0;
        while i < count
            invariant
                self.wf(),
                count == self@.len(),
                i <= count,
                out@.len() == i,
                forall|j: int| 0 <= j < i ==>
                    #[trigger] out@[j] == self@[j].r * 65536 + self@[j].g * 256 + self@[j].b,
            decreases count - i,
        {
            let r = self.pixels[3 * i] as u32;
            let g = self.pixels[3 * i + 1] as u32;
            let b = self.pixels[3 * i + 2] as u32;
            out.push(r * 65536 + g * 256 + b);
            i = i + 1;
        }
        out
    }

    fn offset(&self, x: u32, y: u32) -> (o: usize)
        requires
            self.wf(),
            x < self.width,
            y < self.height,
        ensures
            o == 3 * (x + y * self.width),
            o + 2 < self.pixels@.len(),
    {
        proof {
            lemma_pixel_index(x as int, y as int, self.width as int, self.height as int);
        }
        (3 * (x + y * self.width)) as usize
    }
}

impl RenderTarget for FrameBuffer {
    open spec fn target_view(&self) -> Seq<Color> {
        self@
    }

    open spec fn target_wf(&self) -> bool {
        self.wf()
    }

    open spec fn target_width(&self) -> int {
        self.width_spec()
    }

    open spec fn target_height(&self) -> int {
        self.height_spec()
    }

    proof fn lemma_target_len(&self) {
        self.lemma_wf_len();
    }

    fn width(&self) -> (w: u32) {
        self.width
    }

    fn height(&self) -> (h: u32) {
        self.height
    }

    /// The raw bytes: row-major, three per pixel, in the order R, G, B.
    fn as_bytes(&self) -> (b: &[u8]) {
        self.pixels.as_slice()
    }

    /// Sets pixel `(x, y)`.
    fn set(&mut self, x: u32, y: u32, value: Color) {
        let o = self.offset(x, y);
        self.pixels.set(o, value.r);
        self.pixels.set(o + 1, value.g);
        self.pixels.set(o + 2, value.b);
        proof {
            lemma_pixel_index(x as int, y as int, self.width as int, self.height as int);
            let k = x + y * self.width;
            assert forall|i: int| 0 <= i < self@.len() && i != k implies self@[i] == old(self)@[i] by {
                assert(3 * i + 2 < 3 * k || 3 * k + 2 < 3 * i);
            };
            assert(self@ =~= old(self)@.update(k, value));
        }
    }

    /// Pixel `(x, y)`.
    fn get(&self, x: u32, y: u32) -> (c: Color) {
        let o = self.offset(x, y);
        proof {
            lemma_pixel_index(x as int, y as int, self.width as int, self.height as int);
        }
        Color::new(self.pixels[o], self.pixels[o + 1], self.pixels[o + 2])
    }

    /// Sets every pixel to `value`.
    fn clear(&mut self, value: Color) {
        let count: usize = (self.width * self.height) as usize;
        let mut i: usize = 0;
        while i < count
            invariant
                self.wf(),
                self.width == old(self).width,
                self.height == old(self).height,
                count == self@.len(),
                i <= count,
                forall|j: int| 0 <= j < i ==> #[trigger] self@[j] == value,
            decreases count - i,
        {
            let ghost before = self@;
            self.pixels.set(3 * i, value.r);
            self.pixels.set(3 * i + 1, value.g);
            self.pixels.set(3 * i + 2, value.b);
            proof {
                assert forall|j: int| 0 <= j < i implies #[trigger] self@[j] == value by {
                    assert(before[j] == value);
                    assert(3 * j + 2 < 3 * i);
                };
                assert(self@[i as int] == value);
            }
            i = i + 1;
        }
        assert(self@ =~= Seq::new(old(self)@.len(), |i: int| value));
    }
}

pub open spec fn black_spec() -> Color {
    Color { r: 0, g: 0, b: 0 }
}

} // verus!
