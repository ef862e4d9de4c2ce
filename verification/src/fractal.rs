//! The fractal payload a block carries. The chain treats it as data: it
//! is hashed with the block and its `seed` is rewritten by the miner at
//! every attempt, but its geometry is never validated. Real-valued
//! generation parameters and coordinates are held as IEEE-754 bit
//! patterns, so that hashing and comparison are exact; the drawing
//! itself is produced outside the verified core.

use vstd::prelude::*;
use crate::encoding::{enc_u32, enc_u64, push_u32, push_u64};

verus! {

/// A randomly perturbed Sierpinski triangle subdivision.
pub struct Sierpinski {
    /// Subdivision depth.
    pub depth: u64,
    /// The generator seed; the miner sets it to the block nonce.
    pub seed: u64,
    /// Triangle corner coordinates, each an `f64` bit pattern.
    pub vertices: Vec<(u64, u64)>,
}

/// A Mandelbrot-set raster.
pub struct Mandelbrot {
    pub width: u64,
    pub height: u64,
    /// Window bounds, `f64` bit patterns.
    pub x_min: u64,
    pub x_max: u64,
    pub y_min: u64,
    pub y_max: u64,
    pub max_iterations: u32,
    pub seed: u64,
    /// Iteration count per pixel, row by row.
    pub data: Vec<u32>,
}

/// A Julia-set raster.
pub struct Julia {
    pub width: u64,
    pub height: u64,
    /// Window bounds and the constant `c`, `f64` bit patterns.
    pub x_min: u64,
    pub x_max: u64,
    pub y_min: u64,
    pub y_max: u64,
    pub c_real: u64,
    pub c_imag: u64,
    pub max_iterations: u32,
    pub seed: u64,
    /// Iteration count per pixel, row by row.
    pub data: Vec<u32>,
}

/// The fractal variants a block can carry.
pub enum FractalData {
    Sierpinski(Sierpinski),
    Mandelbrot(Mandelbrot),
    Julia(Julia),
}

/// The mathematical image of a `Sierpinski`.
pub ghost struct SierpinskiV {
    pub depth: u64,
    pub seed: u64,
    pub vertices: Seq<(u64, u64)>,
}

/// The mathematical image of a `Mandelbrot`.
pub ghost struct MandelbrotV {
    pub width: u64,
    pub height: u64,
    pub x_min: u64,
    pub x_max: u64,
    pub y_min: u64,
    pub y_max: u64,
    pub max_iterations: u32,
    pub seed: u64,
    pub data: Seq<u32>,
}

/// The mathematical image of a `Julia`.
pub ghost struct JuliaV {
    pub width: u64,
    pub height: u64,
    pub x_min: u64,
    pub x_max: u64,
    pub y_min: u64,
    pub y_max: u64,
    pub c_real: u64,
    pub c_imag: u64,
    pub max_iterations: u32,
    pub seed: u64,
    pub data: Seq<u32>,
}

/// The mathematical image of a `FractalData`.
pub ghost enum FractalDataV {
    Sierpinski(SierpinskiV),
    Mandelbrot(MandelbrotV),
    Julia(JuliaV),
}

impl View for Sierpinski {
    type V = SierpinskiV;

    open spec fn view(&self) -> SierpinskiV {
        SierpinskiV { depth: self.depth, seed: self.seed, vertices: self.vertices@ }
    }
}

impl View for Mandelbrot {
    type V = MandelbrotV;

    open spec fn view(&self) -> MandelbrotV {
        MandelbrotV {
            width: self.width,
            height: self.height,
            x_min: self.x_min,
            x_max: self.x_max,
            y_min: self.y_min,
            y_max: self.y_max,
            max_iterations: self.max_iterations,
            seed: self.seed,
            data: self.data@,
        }
    }
}

impl View for Julia {
    type V = JuliaV;

    open spec fn view(&self) -> JuliaV {
        JuliaV {
            width: self.width,
            height: self.height,
            x_min: self.x_min,
            x_max: self.x_max,
            y_min: self.y_min,
            y_max: self.y_max,
            c_real: self.c_real,
            c_imag: self.c_imag,
            max_iterations: self.max_iterations,
            seed: self.seed,
            data: self.data@,
        }
    }
}

impl View for FractalData {
    type V = FractalDataV;

    open spec fn view(&self) -> FractalDataV {
        match self {
            FractalData::Sierpinski(s) => FractalDataV::Sierpinski(s@),
            FractalData::Mandelbrot(m) => FractalDataV::Mandelbrot(m@),
            FractalData::Julia(j) => FractalDataV::Julia(j@),
        }
    }
}

/// The seed stored in a fractal.
pub open spec fn fractal_seed(f: FractalDataV) -> u64 {
    match f {
        FractalDataV::Sierpinski(s) => s.seed,
        FractalDataV::Mandelbrot(m) => m.seed,
        FractalDataV::Julia(j) => j.seed,
    }
}

/// The same fractal with its seed replaced.
pub open spec fn fractal_with_seed(f: FractalDataV, seed: u64) -> FractalDataV {
    match f {
        FractalDataV::Sierpinski(s) => FractalDataV::Sierpinski(SierpinskiV { seed, ..s }),
        FractalDataV::Mandelbrot(m) => FractalDataV::Mandelbrot(MandelbrotV { seed, ..m }),
        FractalDataV::Julia(j) => FractalDataV::Julia(JuliaV { seed, ..j }),
    }
}

/// The encoding of a vertex list, corner by corner.
pub open spec fn enc_vertices(s: Seq<(u64, u64)>) -> Seq<u8>
    decreases s.len(),
{
    if s.len() == 0 {
        Seq::empty()
    } else {
        enc_vertices(s.drop_last()) + enc_u64(s.last().0) + enc_u64(s.last().1)
    }
}

/// The encoding of a raster payload, pixel by pixel.
pub open spec fn enc_pixels(s: Seq<u32>) -> Seq<u8>
    decreases s.len(),
{
    if s.len() == 0 {
        Seq::empty()
    } else {
        enc_pixels(s.drop_last()) + enc_u32(s.last())
    }
}

/// The canonical encoding of a fractal: a variant tag, the parameters in
/// declaration order, then the length-prefixed payload.
pub open spec fn enc_fractal(f: FractalDataV) -> Seq<u8> {
    match f {
        FractalDataV::Sierpinski(s) => seq![0u8] + enc_u64(s.depth) + enc_u64(s.seed) + enc_u64(
            s.vertices.len() as u64,
        ) + enc_vertices(s.vertices),
        FractalDataV::Mandelbrot(m) => seq![1u8] + enc_u64(m.width) + enc_u64(m.height) + enc_u64(
            m.x_min,
        ) + enc_u64(m.x_max) + enc_u64(m.y_min) + enc_u64(m.y_max) + enc_u32(m.max_iterations)
            + enc_u64(m.seed) + enc_u64(m.data.len() as u64) + enc_pixels(m.data),
        FractalDataV::Julia(j) => seq![2u8] + enc_u64(j.width) + enc_u64(j.height) + enc_u64(
            j.x_min,
        ) + enc_u64(j.x_max) + enc_u64(j.y_min) + enc_u64(j.y_max) + enc_u64(j.c_real) + enc_u64(
            j.c_imag,
        ) + enc_u32(j.max_iterations) + enc_u64(j.seed) + enc_u64(j.data.len() as u64) + enc_pixels(
            j.data,
        ),
    }
}

/// Appends the encodings of all vertices to `out`.
fn push_vertices(out: &mut Vec<u8>, v: &Vec<(u64, u64)>)
    ensures
        final(out)@ == old(out)@ + enc_vertices(v@),
{
    let mut i: usize = 0;
    while i < v.len()
        invariant
            i <= v.len(),
            out@ == old(out)@ + enc_vertices(v@.take(i as int)),
        decreases v.len() - i,
    {
        let (x, y) = v[i];
        push_u64(out, x);
        push_u64(out, y);
        proof {
            assert(v@.take(i + 1).drop_last() =~= v@.take(i as int));
            assert(v@.take(i + 1).last() == v@[i as int]);
            assert(out@ =~= old(out)@ + enc_vertices(v@.take(i + 1)));
        }
        i = i + 1;
    }
    proof {
        assert(v@.take(v@.len() as int) =~= v@);
    }
}

/// Appends the encodings of all pixels to `out`.
fn push_pixels(out: &mut Vec<u8>, v: &Vec<u32>)
    ensures
        final(out)@ == old(out)@ + enc_pixels(v@),
{
    let mut i: usize = 0;
    while i < v.len()
        invariant
            i <= v.len(),
            out@ == old(out)@ + enc_pixels(v@.take(i as int)),
        decreases v.len() - i,
    {
        push_u32(out, v[i]);
        proof {
            assert(v@.take(i + 1).drop_last() =~= v@.take(i as int));
            assert(v@.take(i + 1).last() == v@[i as int]);
            assert(out@ =~= old(out)@ + enc_pixels(v@.take(i + 1)));
        }
        i = i + 1;
    }
    proof {
        assert(v@.take(v@.len() as int) =~= v@);
    }
}

/// Appends the canonical encoding of `f` to `out`.
pub fn push_fractal(out: &mut Vec<u8>, f: &FractalData)
    ensures
        final(out)@ == old(out)@ + enc_fractal(f@),
{
    match f {
        FractalData::Sierpinski(s) => {
            out.push(0u8);
            proof {
                assert(out@ =~= old(out)@ + seq![0u8]);
            }
            push_u64(out, s.depth);
            push_u64(out, s.seed);
            push_u64(out, s.vertices.len() as u64);
            push_vertices(out, &s.vertices);
            proof {
                assert(out@ =~= old(out)@ + enc_fractal(f@));
            }
        },
        FractalData::Mandelbrot(m) => {
            out.push(1u8);
            proof {
                assert(out@ =~= old(out)@ + seq![1u8]);
            }
            push_u64(out, m.width);
            push_u64(out, m.height);
            push_u64(out, m.x_min);
            push_u64(out, m.x_max);
            push_u64(out, m.y_min);
            push_u64(out, m.y_max);
            push_u32(out, m.max_iterations);
            push_u64(out, m.seed);
            push_u64(out, m.data.len() as u64);
            push_pixels(out, &m.data);
            proof {
                assert(out@ =~= old(out)@ + enc_fractal(f@));
            }
        },
        FractalData::Julia(j) => {
            out.push(2u8);
            proof {
                assert(out@ =~= old(out)@ + seq![2u8]);
            }
            push_u64(out, j.width);
            push_u64(out, j.height);
            push_u64(out, j.x_min);
            push_u64(out, j.x_max);
            push_u64(out, j.y_min);
            push_u64(out, j.y_max);
            push_u64(out, j.c_real);
            push_u64(out, j.c_imag);
            push_u32(out, j.max_iterations);
            push_u64(out, j.seed);
            push_u64(out, j.data.len() as u64);
            push_pixels(out, &j.data);
            proof {
                assert(out@ =~= old(out)@ + enc_fractal(f@));
            }
        },
    }
}

impl FractalData {
    /// The seed currently stored in the fractal.
    pub fn seed(&self) -> (r: u64)
        ensures
            r == fractal_seed(self@),
    {
        match self {
            FractalData::Sierpinski(s) => s.seed,
            FractalData::Mandelbrot(m) => m.seed,
            FractalData::Julia(j) => j.seed,
        }
    }

    /// A fresh copy of this fractal.
    pub fn duplicate(&self) -> (r: FractalData)
        ensures
            r@ == self@,
    {
        let r = self.with_seed(self.seed());
        proof {
            assert(fractal_with_seed(self@, fractal_seed(self@)) == self@);
        }
        r
    }

    /// A copy of this fractal with its seed replaced: what the miner
    /// stamps onto each attempt.
    pub fn with_seed(&self, seed: u64) -> (r: FractalData)
        ensures
            r@ == fractal_with_seed(self@, seed),
    {
        match self {
            FractalData::Sierpinski(s) => FractalData::Sierpinski(
                Sierpinski { depth: s.depth, seed, vertices: copy_vertices(&s.vertices) },
            ),
            FractalData::Mandelbrot(m) => FractalData::Mandelbrot(
                Mandelbrot {
                    width: m.width,
                    height: m.height,
                    x_min: m.x_min,
                    x_max: m.x_max,
                    y_min: m.y_min,
                    y_max: m.y_max,
                    max_iterations: m.max_iterations,
                    seed,
                    data: copy_pixels(&m.data),
                },
            ),
            FractalData::Julia(j) => FractalData::Julia(
                Julia {
                    width: j.width,
                    height: j.height,
                    x_min: j.x_min,
                    x_max: j.x_max,
                    y_min: j.y_min,
                    y_max: j.y_max,
                    c_real: j.c_real,
                    c_imag: j.c_imag,
                    max_iterations: j.max_iterations,
                    seed,
                    data: copy_pixels(&j.data),
                },
            ),
        }
    }
}

/// A fresh copy of a vertex list.
fn copy_vertices(v: &Vec<(u64, u64)>) -> (r: Vec<(u64, u64)>)
    ensures
        r@ == v@,
{
    let mut r: Vec<(u64, u64)> = Vec::new();
    let mut i: usize = 0;
    while i < v.len()
        invariant
            i <= v.len(),
            r@ == v@.take(i as int),
        decreases v.len() - i,
    {
        r.push(v[i]);
        proof {
            assert(r@ =~= v@.take(i + 1));
        }
        i = i + 1;
    }
    proof {
        assert(v@.take(v@.len() as int) =~= v@);
    }
    r
}

/// A fresh copy of a raster payload.
fn copy_pixels(v: &Vec<u32>) -> (r: Vec<u32>)
    ensures
        r@ == v@,
{
    let mut r: Vec<u32> = Vec::new();
    let mut i: usize = 0;
    while i < v.len()
        invariant
            i <= v.len(),
            r@ == v@.take(i as int),
        decreases v.len() - i,
    {
        r.push(v[i]);
        proof {
            assert(r@ =~= v@.take(i + 1));
        }
        i = i + 1;
    }
    proof {
        assert(v@.take(v@.len() as int) =~= v@);
    }
    r
}

} // verus!
