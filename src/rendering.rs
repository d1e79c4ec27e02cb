use vstd::prelude::*;

verus! {

/// A colour with three 8-bit channels.
#[derive(Clone, Copy, Debug, PartialEq, Eq, Structural)]
pub struct Color {
    pub r: u8,
    pub g: u8,
    pub b: u8,
}

impl Color {
    pub fn new(r: u8, g: u8, b: u8) -> (c: Color)
        ensures
            c == (Color { r, g, b }),
    {
        Color { r, g, b }
    }
}

pub fn black() -> (c: Color)
    ensures
        c == (Color { r: 0, g: 0, b: 0 }),
{
    Color::new(0, 0, 0)
}

pub fn white() -> (c: Color)
    ensures
        c == (Color { r: 255, g: 255, b: 255 }),
{
    Color::new(255, 255, 255)
}

pub fn red() -> (c: Color)
    ensures
        c == (Color { r: 255, g: 0, b: 0 }),
{
    Color::new(255, 0, 0)
}

pub fn green() -> (c: Color)
    ensures
        c == (Color { r: 0, g: 255, b: 0 }),
{
    Color::new(0, 255, 0)
}

pub fn blue() -> (c: Color)
    ensures
        c == (Color { r: 0, g: 0, b: 255 }),
{
    Color::new(0, 0, 255)
}

pub fn gray() -> (c: Color)
    ensures
        c == (Color { r: 100, g: 100, b: 100 }),
{
    Color::new(100, 100, 100)
}

pub fn dark_gray() -> (c: Color)
    ensures
        c == (Color { r: 50, g: 50, b: 50 }),
{
    Color::new(50, 50, 50)
}

/// An RGB triple, kept beside [Color] for callers that name colours this way.
#[derive(Clone, Copy, Debug, PartialEq, Eq, Structural)]
pub struct Rgb {
    pub r: u8,
    pub g: u8,
    pub b: u8,
}

impl Rgb {
    pub fn new(r: u8, g: u8, b: u8) -> (c: Rgb)
        ensures
            c == (Rgb { r, g, b }),
    {
        Rgb { r, g, b }
    }

    pub fn red() -> (c: Rgb)
        ensures
            c == (Rgb { r: 255, g: 0, b: 0 }),
    {
        Rgb { r: 255, g: 0, b: 0 }
    }

    pub fn green() -> (c: Rgb)
        ensures
            c == (Rgb { r: 0, g: 255, b: 0 }),
    {
        Rgb { r: 0, g: 255, b: 0 }
    }

    pub fn gray() -> (c: Rgb)
        ensures
            c == (Rgb { r: 50, g: 50, b: 50 }),
    {
        Rgb { r: 50, g: 50, b: 50 }
    }
}

/// The flat diffuse colour of a surface.
#[derive(Clone, Copy, Debug, PartialEq, Eq, Structural)]
pub struct Material {
    pub diffuse: Color,
}

impl Material {
    pub fn from_diffuse(diffuse: Color) -> (m: Material)
        ensures
            m.diffuse == diffuse,
    {
        Material { diffuse }
    }

    pub fn diffuse_color(&self) -> (c: Color)
        ensures
            c == self.diffuse,
    {
        self.diffuse
    }
}

/// How many sub-samples are taken for each pixel.
#[derive(Clone, Copy, Debug, PartialEq, Eq, Structural)]
pub enum Sampling {
    /// one sample, at the pixel centre
    Disabled,
    /// a 2x2 grid of samples
    Samples4,
    /// a 4x4 grid of samples
    Samples16,
}

/// Options of one render call.
#[derive(Clone, Copy, Debug, PartialEq, Eq, Structural)]
pub struct RenderOpts {
    pub samples: Sampling,
}

impl RenderOpts {
    pub fn new() -> (o: RenderOpts)
        ensures
            o.samples == Sampling::Disabled,
    {
        RenderOpts { samples: Sampling::Disabled }
    }

    pub fn with_samples(self, samples: Sampling) -> (o: RenderOpts)
        ensures
            o.samples == samples,
    {
        let mut s = self;
        s.samples = samples;
        s
    }
}

/// The size of a render target, in pixels.
#[derive(Clone, Copy, Debug, PartialEq, Eq, Structural)]
pub struct PixelSize {
    pub width: u32,
    pub height: u32,
}

impl PixelSize {
    pub fn new(width: u32, height: u32) -> (s: PixelSize)
        ensures
            s == (PixelSize { width, height }),
    {
        PixelSize { width, height }
    }
}

/// A pixel of a render target; (0, 0) is the top-left corner.
#[derive(Clone, Copy, Debug, PartialEq, Eq, Structural)]
pub struct Pixel {
    pub x: u32,
    pub y: u32,
}

impl Pixel {
    pub fn new(x: u32, y: u32) -> (p: Pixel)
        ensures
            p == (Pixel { x, y }),
    {
        Pixel { x, y }
    }
}

/// A running sum of colour samples, averaged into one [Color] at the end.
#[derive(Clone, Copy, Debug, PartialEq, Eq, Structural)]
pub struct HdrColor {
    pub r: u64,
    pub g: u64,
    pub b: u64,
    pub samples: u32,
}

/// The accumulator after one more sample.
pub open spec fn plus(s: HdrColor, c: Color) -> HdrColor {
    HdrColor {
        r: (s.r + c.r) as u64,
        g: (s.g + c.g) as u64,
        b: (s.b + c.b) as u64,
        samples: (s.samples + 1) as u32,
    }
}

/// The accumulator after taking each colour of `cs` in turn, from empty.
pub open spec fn accumulate(cs: Seq<Color>) -> HdrColor
    decreases cs.len(),
{
    if cs.len() == 0 {
        HdrColor { r: 0, g: 0, b: 0, samples: 0 }
    } else {
        plus(accumulate(cs.drop_last()), cs.last())
    }
}

/// The per-channel mean, truncated; black when no sample was taken.
pub open spec fn mean_color(s: HdrColor) -> Color {
    if s.samples == 0 {
        Color { r: 0, g: 0, b: 0 }
    } else {
        Color {
            r: (s.r as int / s.samples as int) as u8,
            g: (s.g as int / s.samples as int) as u8,
            b: (s.b as int / s.samples as int) as u8,
        }
    }
}

impl HdrColor {
    /// Each channel's sum is at most 255 per sample taken.
    pub open spec fn wf(&self) -> bool {
        &&& self.r <= 255 * self.samples
        &&& self.g <= 255 * self.samples
        &&& self.b <= 255 * self.samples
    }

    pub fn new() -> (s: HdrColor)
        ensures
            s == accumulate(Seq::empty()),
            s.wf(),
    {
        HdrColor { r: 0, g: 0, b: 0, samples: 0 }
    }

    /// Adds one sample.
    pub fn add_color(&mut self, c: Color)
        requires
            old(self).wf(),
            old(self).samples < u32::MAX,
        ensures
            *final(self) == plus(*old(self), c),
            final(self).wf(),
    {
        assert(self.r + c.r <= 255 * (self.samples + 1)) by (nonlinear_arith)
            requires self.r <= 255 * self.samples, c.r <= 255;
        assert(self.g + c.g <= 255 * (self.samples + 1)) by (nonlinear_arith)
            requires self.g <= 255 * self.samples, c.g <= 255;
        assert(self.b + c.b <= 255 * (self.samples + 1)) by (nonlinear_arith)
            requires self.b <= 255 * self.samples, c.b <= 255;
        self.r = self.r + c.r as u64;
        self.g = self.g + c.g as u64;
        self.b = self.b + c.b as u64;
        self.samples = self.samples + 1;
    }

    /// The mean colour of the samples taken (black if there were none).
    pub fn to_color(&self) -> (c: Color)
        requires
            self.wf(),
        ensures
            c == mean_color(*self),
    {
        if self.samples == 0 {
            return black();
        }
        let n = self.samples as u64;
        proof {
            lemma_mean_fits(self.r as int, n as int);
            lemma_mean_fits(self.g as int, n as int);
            lemma_mean_fits(self.b as int, n as int);
        }
        Color::new((self.r / n) as u8, (self.g / n) as u8, (self.b / n) as u8)
    }
}

proof fn lemma_mean_fits(sum: int, n: int)
    requires
        n > 0,
        0 <= sum <= 255 * n,
    ensures
        0 <= sum / n <= 255,
{
    assert(sum / n <= 255) by (nonlinear_arith)
        requires n > 0, 0 <= sum <= 255 * n;
    assert(sum / n >= 0) by (nonlinear_arith)
        requires n > 0, 0 <= sum;
}

/// Accumulating one colour `n` times sums each channel `n` times over.
proof fn lemma_accumulate_constant(c: Color, n: nat)
    requires
        n <= u32::MAX,
    ensures
        accumulate(Seq::new(n, |i: int| c)) == (HdrColor {
            r: (n * c.r) as u64,
            g: (n * c.g) as u64,
            b: (n * c.b) as u64,
            samples: n as u32,
        }),
    decreases n,
{
    if n == 0 {
        assert(Seq::new(n, |i: int| c).len() == 0);
    } else {
        let cs = Seq::new(n, |i: int| c);
        assert(cs.drop_last() =~= Seq::new((n - 1) as nat, |i: int| c));
        lemma_accumulate_constant(c, (n - 1) as nat);
        assert(cs.last() == c);
        assert(0 <= (n - 1) * c.r <= n * c.r) by (nonlinear_arith) requires n >= 1, c.r >= 0;
        assert(0 <= (n - 1) * c.g <= n * c.g) by (nonlinear_arith) requires n >= 1, c.g >= 0;
        assert(0 <= (n - 1) * c.b <= n * c.b) by (nonlinear_arith) requires n >= 1, c.b >= 0;
        assert((n - 1) * c.r + c.r == n * c.r) by (nonlinear_arith);
        assert((n - 1) * c.g + c.g == n * c.g) by (nonlinear_arith);
        assert((n - 1) * c.b + c.b == n * c.b) by (nonlinear_arith);
        assert(n * c.r <= 255 * u32::MAX) by (nonlinear_arith)
            requires n <= u32::MAX, c.r <= 255;
        assert(n * c.g <= 255 * u32::MAX) by (nonlinear_arith)
            requires n <= u32::MAX, c.g <= 255;
        assert(n * c.b <= 255 * u32::MAX) by (nonlinear_arith)
            requires n <= u32::MAX, c.b <= 255;
    }
}

/// Averaging the same colour taken any positive number of times gives that
/// colour back exactly.
pub proof fn lemma_uniform_samples_mean(c: Color, n: nat)
    requires
        0 < n <= u32::MAX,
    ensures
        accumulate(Seq::new(n, |i: int| c)).wf(),
        mean_color(accumulate(Seq::new(n, |i: int| c))) == c,
{
    lemma_accumulate_constant(c, n);
    assert(n * c.r <= 255 * n) by (nonlinear_arith) requires c.r <= 255;
    assert(n * c.g <= 255 * n) by (nonlinear_arith) requires c.g <= 255;
    assert(n * c.b <= 255 * n) by (nonlinear_arith) requires c.b <= 255;
    assert((n * c.r) / (n as int) == c.r) by (nonlinear_arith) requires n > 0;
    assert((n * c.g) / (n as int) == c.g) by (nonlinear_arith) requires n > 0;
    assert((n * c.b) / (n as int) == c.b) by (nonlinear_arith) requires n > 0;
}

} // verus!
