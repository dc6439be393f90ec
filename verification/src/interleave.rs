use vstd::prelude::*;
use crate::sample::OPAQUE;

verus! {

/// The sample in slot `x` of the pixel buffer built from the planes `r`, `g`
/// and `b`: pixel `x / 4` holds its red, green and blue samples and then
/// `OPAQUE`.
pub open spec fn component(r: Seq<u32>, g: Seq<u32>, b: Seq<u32>, x: int) -> u32 {
    let pixel = x / 4;
    let slot = x % 4;
    if slot == 0 {
        r[pixel]
    } else if slot == 1 {
        g[pixel]
    } else if slot == 2 {
        b[pixel]
    } else {
        OPAQUE
    }
}

/// The pixel buffer of the first `pixels` samples of three planes.
pub open spec fn interleaved(r: Seq<u32>, g: Seq<u32>, b: Seq<u32>, pixels: nat) -> Seq<u32> {
    Seq::new(4 * pixels, |x: int| component(r, g, b, x))
}

/// Interleaves three channel planes into one buffer of four samples per
/// pixel, in row-major pixel order, with a constant opaque alpha.
///
/// Samples of a plane beyond `width * height` are not read.
pub fn reconstruct(r: &[u32], g: &[u32], b: &[u32], width: u32, height: u32) -> (out: Vec<u32>)
    requires
        4 * (width * height) <= usize::MAX,
        r.len() >= width * height,
        g.len() >= width * height,
        b.len() >= width * height,
    ensures
        out@ == interleaved(r@, g@, b@, (width * height) as nat),
        out.len() == 4 * (width * height),
        forall|x: int| 0 <= x < out.len() && x % 4 == 3 ==> out[x] == OPAQUE,
{
    assert(0 <= width * height) by (nonlinear_arith);
    let pixels: usize = (width as usize) * (height as usize);
    let mut out: Vec<u32> = Vec::with_capacity(pixels * 4);
    let mut i: usize = 0;
    while i < pixels
        invariant
            i <= pixels,
            pixels == width * height,
            4 * pixels <= usize::MAX,
            r.len() >= pixels,
            g.len() >= pixels,
            b.len() >= pixels,
            out.len() == 4 * i,
            forall|x: int| 0 <= x < out.len() ==> out[x] == component(r@, g@, b@, x),
        decreases pixels - i,
    {
        out.push(r[i]);
        out.push(g[i]);
        out.push(b[i]);
        out.push(OPAQUE);
        i += 1;
    }
    out
}

} // verus!
