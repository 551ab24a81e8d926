//! The Mandelbrot image: how its pixels are coloured.
use vstd::prelude::*;

verus! {

/// Red, green, blue and opacity.
pub type Rgba = [u8; 4];

/// The colour of a point that escaped after `count` steps: black if it did not
/// within `max_iter`, else from the palette, which is gone through in turn.
pub open spec fn shade_of(count: u32, max_iter: u32, palette: Seq<Rgba>) -> Seq<u8> {
    if count >= max_iter {
        seq![0u8, 0, 0, 255]
    } else {
        palette[count as int % palette.len() as int]@
    }
}

/// The bytes of a row of points that escaped after so many steps.
pub open spec fn row_of(counts: Seq<u32>, max_iter: u32, palette: Seq<Rgba>) -> Seq<u8> {
    Seq::new(4 * counts.len(), |o: int| shade_of(counts[o / 4], max_iter, palette)[o % 4])
}

/// A point that did not escape is black and opaque; the others go through the
/// palette in turn: the first steps take its colours in their order, and as many
/// steps later as it has colours the same one comes again.
pub proof fn law_palette_comes_round(count: u32, max_iter: u32, palette: Seq<Rgba>)
    requires
        palette.len() > 0,
    ensures
        count >= max_iter ==> shade_of(count, max_iter, palette) == seq![0u8, 0, 0, 255],
        count < max_iter && count < palette.len() ==> shade_of(count, max_iter, palette)
            == palette[count as int]@,
        count < max_iter && count >= palette.len() ==> shade_of(count, max_iter, palette)
            == shade_of((count - palette.len()) as u32, max_iter, palette),
{
    let n = palette.len() as int;
    if count < n {
        vstd::arithmetic::div_mod::lemma_small_mod(count as nat, palette.len());
    } else {
        vstd::arithmetic::div_mod::lemma_mod_sub_multiples_vanish(count as int, n);
        assert((count - n) % n == count as int % n) by {
            vstd::arithmetic::div_mod::lemma_mod_sub_multiples_vanish(count as int, n);
            assert(-n * 1 + count == count - n);
        }
    }
}

/// A row is the colours of its points, four bytes each, in their order.
pub proof fn law_row_is_its_points(
    a: Seq<u32>,
    b: Seq<u32>,
    count: u32,
    max_iter: u32,
    palette: Seq<Rgba>,
)
    requires
        palette.len() > 0,
    ensures
        row_of(a + b, max_iter, palette) == row_of(a, max_iter, palette) + row_of(
            b,
            max_iter,
            palette,
        ),
        row_of(seq![count], max_iter, palette) == shade_of(count, max_iter, palette),
{
    let (ra, rb) = (row_of(a, max_iter, palette), row_of(b, max_iter, palette));
    let both = row_of(a + b, max_iter, palette);
    assert forall|o: int| 0 <= o < both.len() implies both[o] == (ra + rb)[o] by {
        if o >= 4 * a.len() {
            assert((o - 4 * a.len()) / 4 == o / 4 - a.len());
            assert((o - 4 * a.len()) % 4 == o % 4);
        }
    }
    assert(both =~= ra + rb);
    let one = row_of(seq![count], max_iter, palette);
    let shade = shade_of(count, max_iter, palette);
    assert(shade.len() == 4);
    assert(one =~= shade);
}

/// The number of bytes in an image.
pub fn image_len(width: u32, height: u32) -> (r: usize)
    requires
        width * height * 4 <= usize::MAX,
    ensures
        r == width * height * 4,
{
    proof {
        assert(width * height <= width * height * 4) by (nonlinear_arith)
            requires
                0 <= width,
                0 <= height,
        ;
    }
    width as usize * height as usize * 4
}

/// The colour of a point that escaped after `count` steps.
pub fn shade(count: u32, max_iter: u32, palette: &Vec<Rgba>) -> (r: Rgba)
    requires
        count < max_iter ==> palette@.len() > 0,
    ensures
        r@ == shade_of(count, max_iter, palette@),
{
    if count >= max_iter {
        let black: Rgba = [0, 0, 0, 255];
        assert(black@ =~= seq![0u8, 0, 0, 255]);
        black
    } else {
        palette[count as usize % palette.len()]
    }
}

/// The bytes of a row of points that escaped after so many steps.
pub fn shade_row(counts: &Vec<u32>, max_iter: u32, palette: &Vec<Rgba>) -> (r: Vec<u8>)
    requires
        palette@.len() > 0 || forall|i: int|
            0 <= i < counts@.len() ==> #[trigger] counts@[i] >= max_iter,
    ensures
        r@ == row_of(counts@, max_iter, palette@),
{
    let mut out: Vec<u8> = Vec::new();
    let mut i: usize = 0;
    while i < counts.len()
        invariant
            i <= counts@.len(),
            palette@.len() > 0 || forall|i: int|
                0 <= i < counts@.len() ==> #[trigger] counts@[i] >= max_iter,
            out@ =~= row_of(counts@.take(i as int), max_iter, palette@),
        decreases counts@.len() - i,
    {
        let ghost before = out@;
        let c: Rgba = shade(counts[i], max_iter, palette);
        out.push(c[0]);
        out.push(c[1]);
        out.push(c[2]);
        out.push(c[3]);
        proof {
            let want = row_of(counts@.take(i + 1), max_iter, palette@);
            assert forall|o: int| 0 <= o < want.len() implies out@[o] == want[o] by {
                if o < 4 * i {
                    assert(before[o] == row_of(counts@.take(i as int), max_iter, palette@)[o]);
                } else {
                    assert(o / 4 == i);
                    assert(o % 4 == o - 4 * i);
                }
            }
            assert(out@ =~= want);
        }
        i = i + 1;
    }
    assert(counts@.take(i as int) =~= counts@);
    out
}

} // verus!
