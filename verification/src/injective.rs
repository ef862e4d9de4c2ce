//! The canonical encoding is injective: two blocks with the same hashed
//! bytes agree on every field but the stored hash. So mutating any
//! such field moves the hash input, and, short of a SHA-256 collision,
//! the hash itself. Each lemma here says that one encoding form is
//! prefix-unambiguous: equal streams that start with two encodings of
//! the same form carry equal values and equal remainders.

use vstd::prelude::*;
use crate::block::{enc_block_headers, BlockV};
use crate::encoding::{enc_bytes, enc_i64, enc_u32, enc_u64};
use crate::fractal::{enc_fractal, enc_pixels, enc_vertices, FractalDataV};
use crate::transaction::{
    enc_input, enc_inputs, enc_output, enc_outputs, enc_tx, enc_txs, TransactionV, TxInputV,
    TxOutputV,
};

verus! {

/// Equal streams headed by two 64-bit images carry the same value and
/// the same tail.
pub proof fn lemma_prefix_u64(a: u64, b: u64, ra: Seq<u8>, rb: Seq<u8>)
    requires
        enc_u64(a) + ra == enc_u64(b) + rb,
    ensures
        a == b,
        ra == rb,
{
    let s = enc_u64(a) + ra;
    assert(s[0] == enc_u64(a)[0] && s[1] == enc_u64(a)[1] && s[2] == enc_u64(a)[2] && s[3]
        == enc_u64(a)[3] && s[4] == enc_u64(a)[4] && s[5] == enc_u64(a)[5] && s[6] == enc_u64(
        a,
    )[6] && s[7] == enc_u64(a)[7]);
    assert(s[0] == enc_u64(b)[0] && s[1] == enc_u64(b)[1] && s[2] == enc_u64(b)[2] && s[3]
        == enc_u64(b)[3] && s[4] == enc_u64(b)[4] && s[5] == enc_u64(b)[5] && s[6] == enc_u64(
        b,
    )[6] && s[7] == enc_u64(b)[7]);
    assert(a == b) by (bit_vector)
        requires
            a as u8 == b as u8,
            (a >> 8) as u8 == (b >> 8) as u8,
            (a >> 16) as u8 == (b >> 16) as u8,
            (a >> 24) as u8 == (b >> 24) as u8,
            (a >> 32) as u8 == (b >> 32) as u8,
            (a >> 40) as u8 == (b >> 40) as u8,
            (a >> 48) as u8 == (b >> 48) as u8,
            (a >> 56) as u8 == (b >> 56) as u8,
    ;
    assert(enc_u64(a).len() == 8);
    assert(enc_u64(b).len() == 8);
    assert((enc_u64(a) + ra).len() == 8 + ra.len());
    assert((enc_u64(b) + rb).len() == 8 + rb.len());
    assert(ra.len() == rb.len());
    assert forall|i: int| 0 <= i < ra.len() implies ra[i] == rb[i] by {
        assert(ra[i] == s[8 + i]);
        assert(rb[i] == (enc_u64(b) + rb)[8 + i]);
    }
    assert(ra =~= rb);
}

/// Equal streams headed by two 32-bit images carry the same value and
/// the same tail.
pub proof fn lemma_prefix_u32(a: u32, b: u32, ra: Seq<u8>, rb: Seq<u8>)
    requires
        enc_u32(a) + ra == enc_u32(b) + rb,
    ensures
        a == b,
        ra == rb,
{
    let s = enc_u32(a) + ra;
    assert(s[0] == enc_u32(a)[0] && s[1] == enc_u32(a)[1] && s[2] == enc_u32(a)[2] && s[3]
        == enc_u32(a)[3]);
    assert(s[0] == enc_u32(b)[0] && s[1] == enc_u32(b)[1] && s[2] == enc_u32(b)[2] && s[3]
        == enc_u32(b)[3]);
    assert(a == b) by (bit_vector)
        requires
            a as u8 == b as u8,
            (a >> 8) as u8 == (b >> 8) as u8,
            (a >> 16) as u8 == (b >> 16) as u8,
            (a >> 24) as u8 == (b >> 24) as u8,
    ;
    assert(enc_u32(a).len() == 4);
    assert(enc_u32(b).len() == 4);
    assert((enc_u32(a) + ra).len() == 4 + ra.len());
    assert((enc_u32(b) + rb).len() == 4 + rb.len());
    assert(ra.len() == rb.len());
    assert forall|i: int| 0 <= i < ra.len() implies ra[i] == rb[i] by {
        assert(ra[i] == s[4 + i]);
        assert(rb[i] == (enc_u32(b) + rb)[4 + i]);
    }
    assert(ra =~= rb);
}

/// Equal streams headed by two 64-bit images of signed values.
pub proof fn lemma_prefix_i64(a: i64, b: i64, ra: Seq<u8>, rb: Seq<u8>)
    requires
        crate::encoding::enc_i64(a) + ra == crate::encoding::enc_i64(b) + rb,
    ensures
        a == b,
        ra == rb,
{
    lemma_prefix_u64(a as u64, b as u64, ra, rb);
    assert(a == b) by (bit_vector)
        requires
            a as u64 == b as u64,
    ;
}

/// Equal streams headed by two length-prefixed byte strings carry the
/// same bytes and the same tail.
pub proof fn lemma_prefix_bytes(v1: Seq<u8>, v2: Seq<u8>, r1: Seq<u8>, r2: Seq<u8>)
    requires
        enc_bytes(v1) + r1 == enc_bytes(v2) + r2,
        v1.len() <= u64::MAX,
        v2.len() <= u64::MAX,
    ensures
        v1 == v2,
        r1 == r2,
{
    assert(enc_bytes(v1) + r1 =~= enc_u64(v1.len() as u64) + (v1 + r1));
    assert(enc_bytes(v2) + r2 =~= enc_u64(v2.len() as u64) + (v2 + r2));
    lemma_prefix_u64(v1.len() as u64, v2.len() as u64, v1 + r1, v2 + r2);
    assert(v1.len() == v2.len());
    let l = v1.len() as int;
    assert(v1 =~= (v1 + r1).take(l));
    assert(v2 =~= (v2 + r2).take(l));
    assert(r1 =~= (v1 + r1).skip(l));
    assert(r2 =~= (v2 + r2).skip(l));
}

/// Equal streams headed by one byte each.
proof fn lemma_strip_head(h1: u8, h2: u8, t1: Seq<u8>, t2: Seq<u8>)
    requires
        seq![h1] + t1 == seq![h2] + t2,
    ensures
        h1 == h2,
        t1 == t2,
{
    let s = seq![h1] + t1;
    assert(s[0] == h1);
    assert(s[0] == h2);
    assert((seq![h1] + t1).len() == 1 + t1.len());
    assert((seq![h2] + t2).len() == 1 + t2.len());
    assert(t1.len() == t2.len());
    assert forall|i: int| 0 <= i < t1.len() implies t1[i] == t2[i] by {
        assert(t1[i] == s[1 + i]);
        assert(t2[i] == (seq![h2] + t2)[1 + i]);
    }
    assert(t1 =~= t2);
}

/// Equal streams headed by two vertex lists of the same length.
proof fn lemma_prefix_vertices(
    s1: Seq<(u64, u64)>,
    s2: Seq<(u64, u64)>,
    r1: Seq<u8>,
    r2: Seq<u8>,
)
    requires
        s1.len() == s2.len(),
        enc_vertices(s1) + r1 == enc_vertices(s2) + r2,
    ensures
        s1 == s2,
        r1 == r2,
    decreases s1.len(),
{
    if s1.len() == 0 {
        assert(enc_vertices(s1) + r1 =~= r1);
        assert(enc_vertices(s2) + r2 =~= r2);
        assert(s1 =~= s2);
    } else {
        assert(enc_vertices(s1) + r1 =~= enc_vertices(s1.drop_last()) + (enc_u64(s1.last().0) + (
        enc_u64(s1.last().1) + r1)));
        assert(enc_vertices(s2) + r2 =~= enc_vertices(s2.drop_last()) + (enc_u64(s2.last().0) + (
        enc_u64(s2.last().1) + r2)));
        lemma_prefix_vertices(
            s1.drop_last(),
            s2.drop_last(),
            enc_u64(s1.last().0) + (enc_u64(s1.last().1) + r1),
            enc_u64(s2.last().0) + (enc_u64(s2.last().1) + r2),
        );
        lemma_prefix_u64(
            s1.last().0,
            s2.last().0,
            enc_u64(s1.last().1) + r1,
            enc_u64(s2.last().1) + r2,
        );
        lemma_prefix_u64(s1.last().1, s2.last().1, r1, r2);
        assert forall|i: int| 0 <= i < s1.len() implies s1[i] == s2[i] by {
            if i < s1.len() - 1 {
                assert(s1[i] == s1.drop_last()[i]);
                assert(s2[i] == s2.drop_last()[i]);
            } else {
                assert(s1[i] == s1.last());
                assert(s2[i] == s2.last());
            }
        }
        assert(s1 =~= s2);
    }
}

/// Equal streams headed by two rasters of the same length.
proof fn lemma_prefix_pixels(s1: Seq<u32>, s2: Seq<u32>, r1: Seq<u8>, r2: Seq<u8>)
    requires
        s1.len() == s2.len(),
        enc_pixels(s1) + r1 == enc_pixels(s2) + r2,
    ensures
        s1 == s2,
        r1 == r2,
    decreases s1.len(),
{
    if s1.len() == 0 {
        assert(enc_pixels(s1) + r1 =~= r1);
        assert(enc_pixels(s2) + r2 =~= r2);
        assert(s1 =~= s2);
    } else {
        assert(enc_pixels(s1) + r1 =~= enc_pixels(s1.drop_last()) + (enc_u32(s1.last()) + r1));
        assert(enc_pixels(s2) + r2 =~= enc_pixels(s2.drop_last()) + (enc_u32(s2.last()) + r2));
        lemma_prefix_pixels(
            s1.drop_last(),
            s2.drop_last(),
            enc_u32(s1.last()) + r1,
            enc_u32(s2.last()) + r2,
        );
        lemma_prefix_u32(s1.last(), s2.last(), r1, r2);
        assert forall|i: int| 0 <= i < s1.len() implies s1[i] == s2[i] by {
            if i < s1.len() - 1 {
                assert(s1[i] == s1.drop_last()[i]);
                assert(s2[i] == s2.drop_last()[i]);
            } else {
                assert(s1[i] == s1.last());
                assert(s2[i] == s2.last());
            }
        }
        assert(s1 =~= s2);
    }
}

/// Whether a fractal's payload length fits the encoding's count field.
pub open spec fn fractal_bounded(f: FractalDataV) -> bool {
    match f {
        FractalDataV::Sierpinski(s) => s.vertices.len() <= u64::MAX,
        FractalDataV::Mandelbrot(m) => m.data.len() <= u64::MAX,
        FractalDataV::Julia(j) => j.data.len() <= u64::MAX,
    }
}

/// Equal streams headed by two Sierpinski encodings.
#[verifier::rlimit(100)]
#[verifier::spinoff_prover]
proof fn lemma_prefix_sierpinski(
    a: crate::fractal::SierpinskiV,
    b: crate::fractal::SierpinskiV,
    r1: Seq<u8>,
    r2: Seq<u8>,
)
    requires
        enc_fractal(FractalDataV::Sierpinski(a)) + r1 == enc_fractal(FractalDataV::Sierpinski(b))
            + r2,
        a.vertices.len() <= u64::MAX,
        b.vertices.len() <= u64::MAX,
    ensures
        a == b,
        r1 == r2,
{
    let f1 = FractalDataV::Sierpinski(a);
    let f2 = FractalDataV::Sierpinski(b);

    assert(enc_fractal(f1) + r1 =~= seq![0u8] + (enc_u64(a.depth) + (enc_u64(a.seed) + (
    enc_u64(a.vertices.len() as u64) + (enc_vertices(a.vertices) + r1)))));
    assert(enc_fractal(f2) + r2 =~= seq![0u8] + (enc_u64(b.depth) + (enc_u64(b.seed) + (
    enc_u64(b.vertices.len() as u64) + (enc_vertices(b.vertices) + r2)))));
    lemma_strip_head(
        0u8,
        0u8,
        enc_u64(a.depth) + (enc_u64(a.seed) + (enc_u64(a.vertices.len() as u64) + (
        enc_vertices(a.vertices) + r1))),
        enc_u64(b.depth) + (enc_u64(b.seed) + (enc_u64(b.vertices.len() as u64) + (
        enc_vertices(b.vertices) + r2))),
    );
    lemma_prefix_u64(
        a.depth,
        b.depth,
        enc_u64(a.seed) + (enc_u64(a.vertices.len() as u64) + (enc_vertices(a.vertices)
            + r1)),
        enc_u64(b.seed) + (enc_u64(b.vertices.len() as u64) + (enc_vertices(b.vertices)
            + r2)),
    );
    lemma_prefix_u64(
        a.seed,
        b.seed,
        enc_u64(a.vertices.len() as u64) + (enc_vertices(a.vertices) + r1),
        enc_u64(b.vertices.len() as u64) + (enc_vertices(b.vertices) + r2),
    );
    lemma_prefix_u64(
        a.vertices.len() as u64,
        b.vertices.len() as u64,
        enc_vertices(a.vertices) + r1,
        enc_vertices(b.vertices) + r2,
    );
    assert(a.vertices.len() == b.vertices.len());
    lemma_prefix_vertices(a.vertices, b.vertices, r1, r2);
        }

/// Equal streams headed by two Mandelbrot encodings.
#[verifier::rlimit(100)]
#[verifier::spinoff_prover]
proof fn lemma_prefix_mandelbrot(
    a: crate::fractal::MandelbrotV,
    b: crate::fractal::MandelbrotV,
    r1: Seq<u8>,
    r2: Seq<u8>,
)
    requires
        enc_fractal(FractalDataV::Mandelbrot(a)) + r1 == enc_fractal(FractalDataV::Mandelbrot(b))
            + r2,
        a.data.len() <= u64::MAX,
        b.data.len() <= u64::MAX,
    ensures
        a == b,
        r1 == r2,
{
    let f1 = FractalDataV::Mandelbrot(a);
    let f2 = FractalDataV::Mandelbrot(b);

    assert(enc_fractal(f1) + r1 =~= seq![1u8] + (enc_u64(a.width) + (enc_u64(a.height) + (
    enc_u64(a.x_min) + (enc_u64(a.x_max) + (enc_u64(a.y_min) + (enc_u64(a.y_max) + (
    enc_u32(a.max_iterations) + (enc_u64(a.seed) + (enc_u64(a.data.len() as u64) + (
    enc_pixels(a.data) + r1)))))))))));
    assert(enc_fractal(f2) + r2 =~= seq![1u8] + (enc_u64(b.width) + (enc_u64(b.height) + (
    enc_u64(b.x_min) + (enc_u64(b.x_max) + (enc_u64(b.y_min) + (enc_u64(b.y_max) + (
    enc_u32(b.max_iterations) + (enc_u64(b.seed) + (enc_u64(b.data.len() as u64) + (
    enc_pixels(b.data) + r2)))))))))));
    lemma_strip_head(
        1u8,
        1u8,
        enc_u64(a.width) + (enc_u64(a.height) + (enc_u64(a.x_min) + (enc_u64(a.x_max) + (
        enc_u64(a.y_min) + (enc_u64(a.y_max) + (enc_u32(a.max_iterations) + (enc_u64(
            a.seed,
        ) + (enc_u64(a.data.len() as u64) + (enc_pixels(a.data) + r1))))))))),
        enc_u64(b.width) + (enc_u64(b.height) + (enc_u64(b.x_min) + (enc_u64(b.x_max) + (
        enc_u64(b.y_min) + (enc_u64(b.y_max) + (enc_u32(b.max_iterations) + (enc_u64(
            b.seed,
        ) + (enc_u64(b.data.len() as u64) + (enc_pixels(b.data) + r2))))))))),
    );
    lemma_prefix_u64(
        a.width,
        b.width,
        enc_u64(a.height) + (enc_u64(a.x_min) + (enc_u64(a.x_max) + (enc_u64(a.y_min) + (
        enc_u64(a.y_max) + (enc_u32(a.max_iterations) + (enc_u64(a.seed) + (enc_u64(
            a.data.len() as u64,
        ) + (enc_pixels(a.data) + r1)))))))),
        enc_u64(b.height) + (enc_u64(b.x_min) + (enc_u64(b.x_max) + (enc_u64(b.y_min) + (
        enc_u64(b.y_max) + (enc_u32(b.max_iterations) + (enc_u64(b.seed) + (enc_u64(
            b.data.len() as u64,
        ) + (enc_pixels(b.data) + r2)))))))),
    );
    lemma_prefix_u64(
        a.height,
        b.height,
        enc_u64(a.x_min) + (enc_u64(a.x_max) + (enc_u64(a.y_min) + (enc_u64(a.y_max) + (
        enc_u32(a.max_iterations) + (enc_u64(a.seed) + (enc_u64(a.data.len() as u64) + (
        enc_pixels(a.data) + r1))))))),
        enc_u64(b.x_min) + (enc_u64(b.x_max) + (enc_u64(b.y_min) + (enc_u64(b.y_max) + (
        enc_u32(b.max_iterations) + (enc_u64(b.seed) + (enc_u64(b.data.len() as u64) + (
        enc_pixels(b.data) + r2))))))),
    );
    lemma_prefix_u64(
        a.x_min,
        b.x_min,
        enc_u64(a.x_max) + (enc_u64(a.y_min) + (enc_u64(a.y_max) + (enc_u32(
            a.max_iterations,
        ) + (enc_u64(a.seed) + (enc_u64(a.data.len() as u64) + (enc_pixels(a.data)
            + r1)))))),
        enc_u64(b.x_max) + (enc_u64(b.y_min) + (enc_u64(b.y_max) + (enc_u32(
            b.max_iterations,
        ) + (enc_u64(b.seed) + (enc_u64(b.data.len() as u64) + (enc_pixels(b.data)
            + r2)))))),
    );
    lemma_prefix_u64(
        a.x_max,
        b.x_max,
        enc_u64(a.y_min) + (enc_u64(a.y_max) + (enc_u32(a.max_iterations) + (enc_u64(
            a.seed,
        ) + (enc_u64(a.data.len() as u64) + (enc_pixels(a.data) + r1))))),
        enc_u64(b.y_min) + (enc_u64(b.y_max) + (enc_u32(b.max_iterations) + (enc_u64(
            b.seed,
        ) + (enc_u64(b.data.len() as u64) + (enc_pixels(b.data) + r2))))),
    );
    lemma_prefix_u64(
        a.y_min,
        b.y_min,
        enc_u64(a.y_max) + (enc_u32(a.max_iterations) + (enc_u64(a.seed) + (enc_u64(
            a.data.len() as u64,
        ) + (enc_pixels(a.data) + r1)))),
        enc_u64(b.y_max) + (enc_u32(b.max_iterations) + (enc_u64(b.seed) + (enc_u64(
            b.data.len() as u64,
        ) + (enc_pixels(b.data) + r2)))),
    );
    lemma_prefix_u64(
        a.y_max,
        b.y_max,
        enc_u32(a.max_iterations) + (enc_u64(a.seed) + (enc_u64(a.data.len() as u64) + (
        enc_pixels(a.data) + r1))),
        enc_u32(b.max_iterations) + (enc_u64(b.seed) + (enc_u64(b.data.len() as u64) + (
        enc_pixels(b.data) + r2))),
    );
    lemma_prefix_u32(
        a.max_iterations,
        b.max_iterations,
        enc_u64(a.seed) + (enc_u64(a.data.len() as u64) + (enc_pixels(a.data) + r1)),
        enc_u64(b.seed) + (enc_u64(b.data.len() as u64) + (enc_pixels(b.data) + r2)),
    );
    lemma_prefix_u64(
        a.seed,
        b.seed,
        enc_u64(a.data.len() as u64) + (enc_pixels(a.data) + r1),
        enc_u64(b.data.len() as u64) + (enc_pixels(b.data) + r2),
    );
    lemma_prefix_u64(
        a.data.len() as u64,
        b.data.len() as u64,
        enc_pixels(a.data) + r1,
        enc_pixels(b.data) + r2,
    );
    assert(a.data.len() == b.data.len());
    lemma_prefix_pixels(a.data, b.data, r1, r2);
        }

/// Equal streams headed by two Julia encodings.
#[verifier::rlimit(100)]
#[verifier::spinoff_prover]
proof fn lemma_prefix_julia(
    a: crate::fractal::JuliaV,
    b: crate::fractal::JuliaV,
    r1: Seq<u8>,
    r2: Seq<u8>,
)
    requires
        enc_fractal(FractalDataV::Julia(a)) + r1 == enc_fractal(FractalDataV::Julia(b)) + r2,
        a.data.len() <= u64::MAX,
        b.data.len() <= u64::MAX,
    ensures
        a == b,
        r1 == r2,
{
    let f1 = FractalDataV::Julia(a);
    let f2 = FractalDataV::Julia(b);

    assert(enc_fractal(f1) + r1 =~= seq![2u8] + (enc_u64(a.width) + (enc_u64(a.height) + (
    enc_u64(a.x_min) + (enc_u64(a.x_max) + (enc_u64(a.y_min) + (enc_u64(a.y_max) + (
    enc_u64(a.c_real) + (enc_u64(a.c_imag) + (enc_u32(a.max_iterations) + (enc_u64(
        a.seed,
    ) + (enc_u64(a.data.len() as u64) + (enc_pixels(a.data) + r1)))))))))))));
    assert(enc_fractal(f2) + r2 =~= seq![2u8] + (enc_u64(b.width) + (enc_u64(b.height) + (
    enc_u64(b.x_min) + (enc_u64(b.x_max) + (enc_u64(b.y_min) + (enc_u64(b.y_max) + (
    enc_u64(b.c_real) + (enc_u64(b.c_imag) + (enc_u32(b.max_iterations) + (enc_u64(
        b.seed,
    ) + (enc_u64(b.data.len() as u64) + (enc_pixels(b.data) + r2)))))))))))));
    lemma_strip_head(
        2u8,
        2u8,
        enc_u64(a.width) + (enc_u64(a.height) + (enc_u64(a.x_min) + (enc_u64(a.x_max) + (
        enc_u64(a.y_min) + (enc_u64(a.y_max) + (enc_u64(a.c_real) + (enc_u64(a.c_imag) + (
        enc_u32(a.max_iterations) + (enc_u64(a.seed) + (enc_u64(a.data.len() as u64) + (
        enc_pixels(a.data) + r1))))))))))),
        enc_u64(b.width) + (enc_u64(b.height) + (enc_u64(b.x_min) + (enc_u64(b.x_max) + (
        enc_u64(b.y_min) + (enc_u64(b.y_max) + (enc_u64(b.c_real) + (enc_u64(b.c_imag) + (
        enc_u32(b.max_iterations) + (enc_u64(b.seed) + (enc_u64(b.data.len() as u64) + (
        enc_pixels(b.data) + r2))))))))))),
    );
    lemma_prefix_u64(
        a.width,
        b.width,
        enc_u64(a.height) + (enc_u64(a.x_min) + (enc_u64(a.x_max) + (enc_u64(a.y_min) + (
        enc_u64(a.y_max) + (enc_u64(a.c_real) + (enc_u64(a.c_imag) + (enc_u32(
            a.max_iterations,
        ) + (enc_u64(a.seed) + (enc_u64(a.data.len() as u64) + (enc_pixels(a.data)
            + r1)))))))))),
        enc_u64(b.height) + (enc_u64(b.x_min) + (enc_u64(b.x_max) + (enc_u64(b.y_min) + (
        enc_u64(b.y_max) + (enc_u64(b.c_real) + (enc_u64(b.c_imag) + (enc_u32(
            b.max_iterations,
        ) + (enc_u64(b.seed) + (enc_u64(b.data.len() as u64) + (enc_pixels(b.data)
            + r2)))))))))),
    );
    lemma_prefix_u64(
        a.height,
        b.height,
        enc_u64(a.x_min) + (enc_u64(a.x_max) + (enc_u64(a.y_min) + (enc_u64(a.y_max) + (
        enc_u64(a.c_real) + (enc_u64(a.c_imag) + (enc_u32(a.max_iterations) + (enc_u64(
            a.seed,
        ) + (enc_u64(a.data.len() as u64) + (enc_pixels(a.data) + r1))))))))),
        enc_u64(b.x_min) + (enc_u64(b.x_max) + (enc_u64(b.y_min) + (enc_u64(b.y_max) + (
        enc_u64(b.c_real) + (enc_u64(b.c_imag) + (enc_u32(b.max_iterations) + (enc_u64(
            b.seed,
        ) + (enc_u64(b.data.len() as u64) + (enc_pixels(b.data) + r2))))))))),
    );
    lemma_prefix_u64(
        a.x_min,
        b.x_min,
        enc_u64(a.x_max) + (enc_u64(a.y_min) + (enc_u64(a.y_max) + (enc_u64(a.c_real) + (
        enc_u64(a.c_imag) + (enc_u32(a.max_iterations) + (enc_u64(a.seed) + (enc_u64(
            a.data.len() as u64,
        ) + (enc_pixels(a.data) + r1)))))))),
        enc_u64(b.x_max) + (enc_u64(b.y_min) + (enc_u64(b.y_max) + (enc_u64(b.c_real) + (
        enc_u64(b.c_imag) + (enc_u32(b.max_iterations) + (enc_u64(b.seed) + (enc_u64(
            b.data.len() as u64,
        ) + (enc_pixels(b.data) + r2)))))))),
    );
    lemma_prefix_u64(
        a.x_max,
        b.x_max,
        enc_u64(a.y_min) + (enc_u64(a.y_max) + (enc_u64(a.c_real) + (enc_u64(a.c_imag) + (
        enc_u32(a.max_iterations) + (enc_u64(a.seed) + (enc_u64(a.data.len() as u64) + (
        enc_pixels(a.data) + r1))))))),
        enc_u64(b.y_min) + (enc_u64(b.y_max) + (enc_u64(b.c_real) + (enc_u64(b.c_imag) + (
        enc_u32(b.max_iterations) + (enc_u64(b.seed) + (enc_u64(b.data.len() as u64) + (
        enc_pixels(b.data) + r2))))))),
    );
    lemma_prefix_u64(
        a.y_min,
        b.y_min,
        enc_u64(a.y_max) + (enc_u64(a.c_real) + (enc_u64(a.c_imag) + (enc_u32(
            a.max_iterations,
        ) + (enc_u64(a.seed) + (enc_u64(a.data.len() as u64) + (enc_pixels(a.data)
            + r1)))))),
        enc_u64(b.y_max) + (enc_u64(b.c_real) + (enc_u64(b.c_imag) + (enc_u32(
            b.max_iterations,
        ) + (enc_u64(b.seed) + (enc_u64(b.data.len() as u64) + (enc_pixels(b.data)
            + r2)))))),
    );
    lemma_prefix_u64(
        a.y_max,
        b.y_max,
        enc_u64(a.c_real) + (enc_u64(a.c_imag) + (enc_u32(a.max_iterations) + (enc_u64(
            a.seed,
        ) + (enc_u64(a.data.len() as u64) + (enc_pixels(a.data) + r1))))),
        enc_u64(b.c_real) + (enc_u64(b.c_imag) + (enc_u32(b.max_iterations) + (enc_u64(
            b.seed,
        ) + (enc_u64(b.data.len() as u64) + (enc_pixels(b.data) + r2))))),
    );
    lemma_prefix_u64(
        a.c_real,
        b.c_real,
        enc_u64(a.c_imag) + (enc_u32(a.max_iterations) + (enc_u64(a.seed) + (enc_u64(
            a.data.len() as u64,
        ) + (enc_pixels(a.data) + r1)))),
        enc_u64(b.c_imag) + (enc_u32(b.max_iterations) + (enc_u64(b.seed) + (enc_u64(
            b.data.len() as u64,
        ) + (enc_pixels(b.data) + r2)))),
    );
    lemma_prefix_u64(
        a.c_imag,
        b.c_imag,
        enc_u32(a.max_iterations) + (enc_u64(a.seed) + (enc_u64(a.data.len() as u64) + (
        enc_pixels(a.data) + r1))),
        enc_u32(b.max_iterations) + (enc_u64(b.seed) + (enc_u64(b.data.len() as u64) + (
        enc_pixels(b.data) + r2))),
    );
    lemma_prefix_u32(
        a.max_iterations,
        b.max_iterations,
        enc_u64(a.seed) + (enc_u64(a.data.len() as u64) + (enc_pixels(a.data) + r1)),
        enc_u64(b.seed) + (enc_u64(b.data.len() as u64) + (enc_pixels(b.data) + r2)),
    );
    lemma_prefix_u64(
        a.seed,
        b.seed,
        enc_u64(a.data.len() as u64) + (enc_pixels(a.data) + r1),
        enc_u64(b.data.len() as u64) + (enc_pixels(b.data) + r2),
    );
    lemma_prefix_u64(
        a.data.len() as u64,
        b.data.len() as u64,
        enc_pixels(a.data) + r1,
        enc_pixels(b.data) + r2,
    );
    assert(a.data.len() == b.data.len());
    lemma_prefix_pixels(a.data, b.data, r1, r2);
        }

/// Equal streams headed by two fractal encodings: the head byte fixes
/// the variant, and the variant lemmas do the rest.
proof fn lemma_prefix_fractal(f1: FractalDataV, f2: FractalDataV, r1: Seq<u8>, r2: Seq<u8>)
    requires
        enc_fractal(f1) + r1 == enc_fractal(f2) + r2,
        fractal_bounded(f1),
        fractal_bounded(f2),
    ensures
        f1 == f2,
        r1 == r2,
{
    let s = enc_fractal(f1) + r1;
    match (f1, f2) {
        (FractalDataV::Sierpinski(a), FractalDataV::Sierpinski(b)) => {
            lemma_prefix_sierpinski(a, b, r1, r2);
        },
        (FractalDataV::Mandelbrot(a), FractalDataV::Mandelbrot(b)) => {
            lemma_prefix_mandelbrot(a, b, r1, r2);
        },
        (FractalDataV::Julia(a), FractalDataV::Julia(b)) => {
            lemma_prefix_julia(a, b, r1, r2);
        },
        _ => {
            assert(s[0] == 0 || s[0] == 1 || s[0] == 2);
            assert(false);
        },
    }
}

/// Whether an input's byte fields fit the encoding's length fields.
pub open spec fn input_bounded(i: TxInputV) -> bool {
    i.txid.len() <= u64::MAX && i.script_sig.len() <= u64::MAX && i.pub_key.len() <= u64::MAX
}

/// Whether an output's address fits the encoding's length field.
pub open spec fn output_bounded(o: TxOutputV) -> bool {
    o.script_pub_key.len() <= u64::MAX
}

/// Whether a transaction's parts fit the encoding's length fields.
pub open spec fn tx_bounded(t: TransactionV) -> bool {
    &&& t.id.len() <= u64::MAX
    &&& t.inputs.len() <= u64::MAX
    &&& t.outputs.len() <= u64::MAX
    &&& forall|i: int| 0 <= i < t.inputs.len() ==> input_bounded(#[trigger] t.inputs[i])
    &&& forall|i: int| 0 <= i < t.outputs.len() ==> output_bounded(#[trigger] t.outputs[i])
}

/// Whether a block's parts fit the encoding's length fields. Any block
/// held in memory satisfies this: each list is shorter than the address
/// space.
pub open spec fn block_bounded(b: BlockV) -> bool {
    &&& b.previous_hash.len() <= u64::MAX
    &&& b.transactions.len() <= u64::MAX
    &&& fractal_bounded(b.fractal)
    &&& forall|i: int| 0 <= i < b.transactions.len() ==> tx_bounded(#[trigger] b.transactions[i])
}

/// Equal streams headed by two input encodings.
#[verifier::spinoff_prover]
proof fn lemma_prefix_input(i1: TxInputV, i2: TxInputV, r1: Seq<u8>, r2: Seq<u8>)
    requires
        enc_input(i1) + r1 == enc_input(i2) + r2,
        input_bounded(i1),
        input_bounded(i2),
    ensures
        i1 == i2,
        r1 == r2,
{
    assert(enc_input(i1) + r1 =~= enc_bytes(i1.txid) + (enc_u64(i1.vout as u64) + (enc_bytes(
        i1.script_sig,
    ) + (enc_bytes(i1.pub_key) + (enc_u32(i1.sequence) + r1)))));
    assert(enc_input(i2) + r2 =~= enc_bytes(i2.txid) + (enc_u64(i2.vout as u64) + (enc_bytes(
        i2.script_sig,
    ) + (enc_bytes(i2.pub_key) + (enc_u32(i2.sequence) + r2)))));
    lemma_prefix_bytes(
        i1.txid,
        i2.txid,
        enc_u64(i1.vout as u64) + (enc_bytes(i1.script_sig) + (enc_bytes(i1.pub_key) + (enc_u32(
            i1.sequence,
        ) + r1))),
        enc_u64(i2.vout as u64) + (enc_bytes(i2.script_sig) + (enc_bytes(i2.pub_key) + (enc_u32(
            i2.sequence,
        ) + r2))),
    );
    lemma_prefix_u64(
        i1.vout as u64,
        i2.vout as u64,
        enc_bytes(i1.script_sig) + (enc_bytes(i1.pub_key) + (enc_u32(i1.sequence) + r1)),
        enc_bytes(i2.script_sig) + (enc_bytes(i2.pub_key) + (enc_u32(i2.sequence) + r2)),
    );
    assert(i1.vout == i2.vout);
    lemma_prefix_bytes(
        i1.script_sig,
        i2.script_sig,
        enc_bytes(i1.pub_key) + (enc_u32(i1.sequence) + r1),
        enc_bytes(i2.pub_key) + (enc_u32(i2.sequence) + r2),
    );
    lemma_prefix_bytes(
        i1.pub_key,
        i2.pub_key,
        enc_u32(i1.sequence) + r1,
        enc_u32(i2.sequence) + r2,
    );
    lemma_prefix_u32(i1.sequence, i2.sequence, r1, r2);
}

/// Equal streams headed by two output encodings.
proof fn lemma_prefix_output(o1: TxOutputV, o2: TxOutputV, r1: Seq<u8>, r2: Seq<u8>)
    requires
        enc_output(o1) + r1 == enc_output(o2) + r2,
        output_bounded(o1),
        output_bounded(o2),
    ensures
        o1 == o2,
        r1 == r2,
{
    assert(enc_output(o1) + r1 =~= enc_u64(o1.value) + (enc_bytes(o1.script_pub_key) + r1));
    assert(enc_output(o2) + r2 =~= enc_u64(o2.value) + (enc_bytes(o2.script_pub_key) + r2));
    lemma_prefix_u64(
        o1.value,
        o2.value,
        enc_bytes(o1.script_pub_key) + r1,
        enc_bytes(o2.script_pub_key) + r2,
    );
    lemma_prefix_bytes(o1.script_pub_key, o2.script_pub_key, r1, r2);
}

/// Equal streams headed by two input lists of the same length.
#[verifier::rlimit(100)]
proof fn lemma_prefix_inputs(s1: Seq<TxInputV>, s2: Seq<TxInputV>, r1: Seq<u8>, r2: Seq<u8>)
    requires
        s1.len() == s2.len(),
        enc_inputs(s1) + r1 == enc_inputs(s2) + r2,
        forall|i: int| 0 <= i < s1.len() ==> input_bounded(#[trigger] s1[i]),
        forall|i: int| 0 <= i < s2.len() ==> input_bounded(#[trigger] s2[i]),
    ensures
        s1 == s2,
        r1 == r2,
    decreases s1.len(),
{
    if s1.len() == 0 {
        assert(enc_inputs(s1) + r1 =~= r1);
        assert(enc_inputs(s2) + r2 =~= r2);
        assert(s1 =~= s2);
    } else {
        assert(enc_inputs(s1) + r1 =~= enc_inputs(s1.drop_last()) + (enc_input(s1.last()) + r1));
        assert(enc_inputs(s2) + r2 =~= enc_inputs(s2.drop_last()) + (enc_input(s2.last()) + r2));
        lemma_prefix_inputs(
            s1.drop_last(),
            s2.drop_last(),
            enc_input(s1.last()) + r1,
            enc_input(s2.last()) + r2,
        );
        lemma_prefix_input(s1.last(), s2.last(), r1, r2);
        assert forall|i: int| 0 <= i < s1.len() implies s1[i] == s2[i] by {
            if i < s1.len() - 1 {
                assert(s1[i] == s1.drop_last()[i]);
                assert(s2[i] == s2.drop_last()[i]);
            } else {
                assert(s1[i] == s1.last());
                assert(s2[i] == s2.last());
            }
        }
        assert(s1 =~= s2);
    }
}

/// Equal streams headed by two output lists of the same length.
#[verifier::rlimit(100)]
proof fn lemma_prefix_outputs(s1: Seq<TxOutputV>, s2: Seq<TxOutputV>, r1: Seq<u8>, r2: Seq<u8>)
    requires
        s1.len() == s2.len(),
        enc_outputs(s1) + r1 == enc_outputs(s2) + r2,
        forall|i: int| 0 <= i < s1.len() ==> output_bounded(#[trigger] s1[i]),
        forall|i: int| 0 <= i < s2.len() ==> output_bounded(#[trigger] s2[i]),
    ensures
        s1 == s2,
        r1 == r2,
    decreases s1.len(),
{
    if s1.len() == 0 {
        assert(enc_outputs(s1) + r1 =~= r1);
        assert(enc_outputs(s2) + r2 =~= r2);
        assert(s1 =~= s2);
    } else {
        assert(enc_outputs(s1) + r1 =~= enc_outputs(s1.drop_last()) + (enc_output(s1.last())
            + r1));
        assert(enc_outputs(s2) + r2 =~= enc_outputs(s2.drop_last()) + (enc_output(s2.last())
            + r2));
        lemma_prefix_outputs(
            s1.drop_last(),
            s2.drop_last(),
            enc_output(s1.last()) + r1,
            enc_output(s2.last()) + r2,
        );
        lemma_prefix_output(s1.last(), s2.last(), r1, r2);
        assert forall|i: int| 0 <= i < s1.len() implies s1[i] == s2[i] by {
            if i < s1.len() - 1 {
                assert(s1[i] == s1.drop_last()[i]);
                assert(s2[i] == s2.drop_last()[i]);
            } else {
                assert(s1[i] == s1.last());
                assert(s2[i] == s2.last());
            }
        }
        assert(s1 =~= s2);
    }
}

/// Equal streams headed by two transaction encodings.
#[verifier::rlimit(100)]
#[verifier::spinoff_prover]
proof fn lemma_prefix_tx(t1: TransactionV, t2: TransactionV, r1: Seq<u8>, r2: Seq<u8>)
    requires
        enc_tx(t1) + r1 == enc_tx(t2) + r2,
        tx_bounded(t1),
        tx_bounded(t2),
    ensures
        t1 == t2,
        r1 == r2,
{
    assert(enc_tx(t1) + r1 =~= enc_bytes(t1.id) + (enc_i64(t1.timestamp) + (enc_u64(
        t1.inputs.len() as u64,
    ) + (enc_inputs(t1.inputs) + (enc_u64(t1.outputs.len() as u64) + (enc_outputs(t1.outputs)
        + r1))))));
    assert(enc_tx(t2) + r2 =~= enc_bytes(t2.id) + (enc_i64(t2.timestamp) + (enc_u64(
        t2.inputs.len() as u64,
    ) + (enc_inputs(t2.inputs) + (enc_u64(t2.outputs.len() as u64) + (enc_outputs(t2.outputs)
        + r2))))));
    lemma_prefix_bytes(
        t1.id,
        t2.id,
        enc_i64(t1.timestamp) + (enc_u64(t1.inputs.len() as u64) + (enc_inputs(t1.inputs) + (
        enc_u64(t1.outputs.len() as u64) + (enc_outputs(t1.outputs) + r1)))),
        enc_i64(t2.timestamp) + (enc_u64(t2.inputs.len() as u64) + (enc_inputs(t2.inputs) + (
        enc_u64(t2.outputs.len() as u64) + (enc_outputs(t2.outputs) + r2)))),
    );
    lemma_prefix_i64(
        t1.timestamp,
        t2.timestamp,
        enc_u64(t1.inputs.len() as u64) + (enc_inputs(t1.inputs) + (enc_u64(
            t1.outputs.len() as u64,
        ) + (enc_outputs(t1.outputs) + r1))),
        enc_u64(t2.inputs.len() as u64) + (enc_inputs(t2.inputs) + (enc_u64(
            t2.outputs.len() as u64,
        ) + (enc_outputs(t2.outputs) + r2))),
    );
    lemma_prefix_u64(
        t1.inputs.len() as u64,
        t2.inputs.len() as u64,
        enc_inputs(t1.inputs) + (enc_u64(t1.outputs.len() as u64) + (enc_outputs(t1.outputs)
            + r1)),
        enc_inputs(t2.inputs) + (enc_u64(t2.outputs.len() as u64) + (enc_outputs(t2.outputs)
            + r2)),
    );
    assert(t1.inputs.len() == t2.inputs.len());
    lemma_prefix_inputs(
        t1.inputs,
        t2.inputs,
        enc_u64(t1.outputs.len() as u64) + (enc_outputs(t1.outputs) + r1),
        enc_u64(t2.outputs.len() as u64) + (enc_outputs(t2.outputs) + r2),
    );
    lemma_prefix_u64(
        t1.outputs.len() as u64,
        t2.outputs.len() as u64,
        enc_outputs(t1.outputs) + r1,
        enc_outputs(t2.outputs) + r2,
    );
    assert(t1.outputs.len() == t2.outputs.len());
    lemma_prefix_outputs(t1.outputs, t2.outputs, r1, r2);
}

/// Equal streams headed by two transaction lists of the same length.
#[verifier::rlimit(100)]
#[verifier::spinoff_prover]
proof fn lemma_prefix_txs(s1: Seq<TransactionV>, s2: Seq<TransactionV>, r1: Seq<u8>, r2: Seq<u8>)
    requires
        s1.len() == s2.len(),
        enc_txs(s1) + r1 == enc_txs(s2) + r2,
        forall|i: int| 0 <= i < s1.len() ==> tx_bounded(#[trigger] s1[i]),
        forall|i: int| 0 <= i < s2.len() ==> tx_bounded(#[trigger] s2[i]),
    ensures
        s1 == s2,
        r1 == r2,
    decreases s1.len(),
{
    if s1.len() == 0 {
        assert(enc_txs(s1) + r1 =~= r1);
        assert(enc_txs(s2) + r2 =~= r2);
        assert(s1 =~= s2);
    } else {
        assert(enc_txs(s1) + r1 =~= enc_txs(s1.drop_last()) + (enc_tx(s1.last()) + r1));
        assert(enc_txs(s2) + r2 =~= enc_txs(s2.drop_last()) + (enc_tx(s2.last()) + r2));
        lemma_prefix_txs(
            s1.drop_last(),
            s2.drop_last(),
            enc_tx(s1.last()) + r1,
            enc_tx(s2.last()) + r2,
        );
        lemma_prefix_tx(s1.last(), s2.last(), r1, r2);
        assert forall|i: int| 0 <= i < s1.len() implies s1[i] == s2[i] by {
            if i < s1.len() - 1 {
                assert(s1[i] == s1.drop_last()[i]);
                assert(s2[i] == s2.drop_last()[i]);
            } else {
                assert(s1[i] == s1.last());
                assert(s2[i] == s2.last());
            }
        }
        assert(s1 =~= s2);
    }
}

/// Hash integrity, the identification half: two blocks whose hashed
/// bytes agree also agree on every field but the stored hash. So
/// mutating the index, timestamp, fractal, transactions, parent hash or
/// nonce of a block changes its hash input and, short of a SHA-256
/// collision, its recomputed hash; the stored hash alone never does.
#[verifier::rlimit(100)]
#[verifier::spinoff_prover]
pub proof fn lemma_header_encoding_injective(b1: BlockV, b2: BlockV)
    requires
        enc_block_headers(b1) == enc_block_headers(b2),
        block_bounded(b1),
        block_bounded(b2),
    ensures
        b1.index == b2.index,
        b1.timestamp == b2.timestamp,
        b1.fractal == b2.fractal,
        b1.transactions == b2.transactions,
        b1.previous_hash == b2.previous_hash,
        b1.nonce == b2.nonce,
{
    reveal(enc_block_headers);
    assert(enc_block_headers(b1) =~= enc_u64(b1.index) + (enc_i64(b1.timestamp) + (enc_fractal(
        b1.fractal,
    ) + (enc_u64(b1.transactions.len() as u64) + (enc_txs(b1.transactions) + (enc_bytes(
        b1.previous_hash,
    ) + (enc_bytes(Seq::<u8>::empty()) + enc_u64(b1.nonce))))))));
    assert(enc_block_headers(b2) =~= enc_u64(b2.index) + (enc_i64(b2.timestamp) + (enc_fractal(
        b2.fractal,
    ) + (enc_u64(b2.transactions.len() as u64) + (enc_txs(b2.transactions) + (enc_bytes(
        b2.previous_hash,
    ) + (enc_bytes(Seq::<u8>::empty()) + enc_u64(b2.nonce))))))));
    lemma_prefix_u64(
        b1.index,
        b2.index,
        enc_i64(b1.timestamp) + (enc_fractal(b1.fractal) + (enc_u64(b1.transactions.len() as u64)
            + (enc_txs(b1.transactions) + (enc_bytes(b1.previous_hash) + (enc_bytes(
            Seq::<u8>::empty(),
        ) + enc_u64(b1.nonce)))))),
        enc_i64(b2.timestamp) + (enc_fractal(b2.fractal) + (enc_u64(b2.transactions.len() as u64)
            + (enc_txs(b2.transactions) + (enc_bytes(b2.previous_hash) + (enc_bytes(
            Seq::<u8>::empty(),
        ) + enc_u64(b2.nonce)))))),
    );
    lemma_prefix_i64(
        b1.timestamp,
        b2.timestamp,
        enc_fractal(b1.fractal) + (enc_u64(b1.transactions.len() as u64) + (enc_txs(
            b1.transactions,
        ) + (enc_bytes(b1.previous_hash) + (enc_bytes(Seq::<u8>::empty()) + enc_u64(b1.nonce))))),
        enc_fractal(b2.fractal) + (enc_u64(b2.transactions.len() as u64) + (enc_txs(
            b2.transactions,
        ) + (enc_bytes(b2.previous_hash) + (enc_bytes(Seq::<u8>::empty()) + enc_u64(b2.nonce))))),
    );
    lemma_prefix_fractal(
        b1.fractal,
        b2.fractal,
        enc_u64(b1.transactions.len() as u64) + (enc_txs(b1.transactions) + (enc_bytes(
            b1.previous_hash,
        ) + (enc_bytes(Seq::<u8>::empty()) + enc_u64(b1.nonce)))),
        enc_u64(b2.transactions.len() as u64) + (enc_txs(b2.transactions) + (enc_bytes(
            b2.previous_hash,
        ) + (enc_bytes(Seq::<u8>::empty()) + enc_u64(b2.nonce)))),
    );
    lemma_prefix_u64(
        b1.transactions.len() as u64,
        b2.transactions.len() as u64,
        enc_txs(b1.transactions) + (enc_bytes(b1.previous_hash) + (enc_bytes(Seq::<u8>::empty())
            + enc_u64(b1.nonce))),
        enc_txs(b2.transactions) + (enc_bytes(b2.previous_hash) + (enc_bytes(Seq::<u8>::empty())
            + enc_u64(b2.nonce))),
    );
    assert(b1.transactions.len() == b2.transactions.len());
    lemma_prefix_txs(
        b1.transactions,
        b2.transactions,
        enc_bytes(b1.previous_hash) + (enc_bytes(Seq::<u8>::empty()) + enc_u64(b1.nonce)),
        enc_bytes(b2.previous_hash) + (enc_bytes(Seq::<u8>::empty()) + enc_u64(b2.nonce)),
    );
    lemma_prefix_bytes(
        b1.previous_hash,
        b2.previous_hash,
        enc_bytes(Seq::<u8>::empty()) + enc_u64(b1.nonce),
        enc_bytes(Seq::<u8>::empty()) + enc_u64(b2.nonce),
    );
    lemma_prefix_bytes(
        Seq::<u8>::empty(),
        Seq::<u8>::empty(),
        enc_u64(b1.nonce),
        enc_u64(b2.nonce),
    );
    assert(enc_u64(b1.nonce) + Seq::<u8>::empty() =~= enc_u64(b1.nonce));
    assert(enc_u64(b2.nonce) + Seq::<u8>::empty() =~= enc_u64(b2.nonce));
    lemma_prefix_u64(b1.nonce, b2.nonce, Seq::<u8>::empty(), Seq::<u8>::empty());
}

} // verus!
