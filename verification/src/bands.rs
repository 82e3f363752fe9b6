//! Partitioning of the raster into contiguous row bands, one per worker,
//! and the assembly of independently rendered bands back into one buffer.

use vstd::arithmetic::div_mod::{
    lemma_fundamental_div_mod, lemma_fundamental_div_mod_converse, lemma_mod_bound,
};
use vstd::prelude::*;

verus! {

/// One contiguous strip of rows `[top, top + height)` of the raster,
/// rendered by a single worker.
#[derive(Clone, Copy, PartialEq, Eq, Structural, Debug)]
pub struct Band {
    pub top: usize,
    pub height: usize,
}

impl Band {
    /// The rows the band owns.
    pub open spec fn contains_row(self, row: int) -> bool {
        self.top <= row < self.top + self.height
    }
}

/// The bands tile the rows `[start, total)` in order: each band is
/// nonempty, the first begins at `start`, each next begins where the
/// previous one ended, and the last ends at `total`. An empty band list
/// tiles an empty row range.
pub open spec fn bands_tile(bands: Seq<Band>, start: int, total: int) -> bool
    decreases bands.len(),
{
    if bands.len() == 0 {
        start == total
    } else {
        &&& bands.first().top == start
        &&& bands.first().height >= 1
        &&& bands_tile(bands.drop_first(), start + bands.first().height, total)
    }
}

proof fn lemma_tile_push(bands: Seq<Band>, start: int, total: int, b: Band)
    requires
        bands_tile(bands, start, total),
        b.top == total,
        b.height >= 1,
    ensures
        bands_tile(bands.push(b), start, total + b.height),
    decreases bands.len(),
{
    if bands.len() == 0 {
        assert(bands.push(b).drop_first() =~= Seq::<Band>::empty());
        assert(bands.push(b).first() == b);
        assert(bands_tile(Seq::<Band>::empty(), start + b.height, total + b.height));
    } else {
        lemma_tile_push(bands.drop_first(), start + bands.first().height, total, b);
        assert(bands.push(b).drop_first() =~= bands.drop_first().push(b));
        assert(bands.push(b).first() == bands.first());
        assert(bands_tile(
            bands.push(b).drop_first(),
            start + bands.first().height,
            total + b.height,
        ));
    }
}

/// Every band of a tiling lies inside the tiled row range.
proof fn lemma_tile_bounds(bands: Seq<Band>, start: int, total: int)
    requires
        bands_tile(bands, start, total),
    ensures
        start <= total,
        forall|i: int|
            0 <= i < bands.len() ==> start <= #[trigger] bands[i].top && bands[i].top
                + bands[i].height <= total,
    decreases bands.len(),
{
    if bands.len() > 0 {
        lemma_tile_bounds(bands.drop_first(), start + bands.first().height, total);
        assert forall|i: int|
            0 <= i < bands.len() implies start <= #[trigger] bands[i].top && bands[i].top
            + bands[i].height <= total by {
            if i > 0 {
                assert(bands[i] == bands.drop_first()[i - 1]);
            }
        }
    }
}

/// Every row of a tiled range lies in exactly one band: the partition of
/// the raster's rows has no gap and no overlap.
pub proof fn lemma_tile_partitions_rows(bands: Seq<Band>, start: int, total: int, row: int)
    requires
        bands_tile(bands, start, total),
        start <= row < total,
    ensures
        exists|i: int| 0 <= i < bands.len() && #[trigger] bands[i].contains_row(row),
        forall|i: int, j: int|
            0 <= i < bands.len() && 0 <= j < bands.len() && #[trigger] bands[i].contains_row(row)
                && #[trigger] bands[j].contains_row(row) ==> i == j,
    decreases bands.len(),
{
    let first = bands.first();
    let rest = bands.drop_first();
    lemma_tile_bounds(rest, start + first.height, total);
    if row < start + first.height {
        assert(bands[0].contains_row(row));
        assert forall|i: int, j: int|
            0 <= i < bands.len() && 0 <= j < bands.len() && #[trigger] bands[i].contains_row(row)
                && #[trigger] bands[j].contains_row(row) implies i == j by {
            if i > 0 {
                assert(bands[i] == rest[i - 1]);
            }
            if j > 0 {
                assert(bands[j] == rest[j - 1]);
            }
        }
    } else {
        lemma_tile_partitions_rows(rest, start + first.height, total, row);
        let w = choose|i: int| 0 <= i < rest.len() && #[trigger] rest[i].contains_row(row);
        assert(bands[w + 1] == rest[w]);
        assert(bands[w + 1].contains_row(row));
        assert forall|i: int, j: int|
            0 <= i < bands.len() && 0 <= j < bands.len() && #[trigger] bands[i].contains_row(row)
                && #[trigger] bands[j].contains_row(row) implies i == j by {
            if i > 0 && j > 0 {
                assert(bands[i] == rest[i - 1]);
                assert(bands[j] == rest[j - 1]);
            }
        }
    }
}

/// The number of rows each band gets: the scheduler's `height / workers
/// + 1`, which over-allocates a little slack rather than dividing to the
/// exact ceiling, so that `workers` bands always suffice.
pub fn rows_per_band(height: usize, workers: usize) -> (r: usize)
    requires
        1 <= workers,
        height < usize::MAX,
    ensures
        r == height / workers + 1,
        r * workers > height,
{
    proof {
        lemma_fundamental_div_mod(height as int, workers as int);
        lemma_mod_bound(height as int, workers as int);
        assert((height / workers + 1) * workers > height) by (nonlinear_arith)
            requires
                1 <= workers,
                height as int == workers * ((height as int) / (workers as int)) + (height as int)
                    % (workers as int),
                (height as int) % (workers as int) < workers,
        ;
    }
    height / workers + 1
}

/// Split `height` rows into contiguous bands of `rows_per_band` rows
/// each, the last band shorter when the division does not come out even.
/// The bands tile the rows, and at most `workers` of them come back, so
/// a worker count larger than the height is harmless.
pub fn band_layout(height: usize, workers: usize) -> (bands: Vec<Band>)
    requires
        1 <= workers,
        height < usize::MAX,
    ensures
        bands_tile(bands@, 0, height as int),
        bands@.len() <= workers,
        forall|i: int|
            0 <= i < bands@.len() ==> (#[trigger] bands@[i]).top == i * ((height / workers
                + 1) as int),
        forall|i: int|
            0 <= i < bands@.len() ==> (#[trigger] bands@[i]).height == (if height as int
                - bands@[i].top < height / workers + 1 {
                height as int - bands@[i].top
            } else {
                (height / workers + 1) as int
            }),
{
    let rpb = rows_per_band(height, workers);
    let mut bands: Vec<Band> = Vec::new();
    let mut top: usize = 0;
    while top < height
        invariant
            1 <= workers,
            height < usize::MAX,
            rpb == height / workers + 1,
            (rpb as int) * (workers as int) > height,
            top <= height,
            bands_tile(bands@, 0, top as int),
            top == bands@.len() * rpb || top == height as int,
            bands@.len() == 0 || (bands@.len() - 1) * rpb < height,
            forall|i: int|
                0 <= i < bands@.len() ==> (#[trigger] bands@[i]).top == i * (rpb as int),
            forall|i: int|
                0 <= i < bands@.len() ==> (#[trigger] bands@[i]).height == (if height as int
                    - bands@[i].top < rpb {
                    height as int - bands@[i].top
                } else {
                    rpb as int
                }),
        decreases height - top,
    {
        let remaining = height - top;
        let h = if remaining < rpb {
            remaining
        } else {
            rpb
        };
        let b = Band { top, height: h };
        proof {
            lemma_tile_push(bands@, 0, top as int, b);
            assert((bands@.len() + 1) * (rpb as int) == bands@.len() * (rpb as int)
                + rpb) by (nonlinear_arith);
        }
        bands.push(b);
        top = top + h;
    }
    proof {
        if height == 0 {
            assert(bands@.len() == 0);
        } else {
            assert(bands@.len() >= 1);
            assert((bands@.len() - 1) * rpb < height);
            assert(bands@.len() <= workers) by (nonlinear_arith)
                requires
                    (bands@.len() - 1) * (rpb as int) < height,
                    (rpb as int) * (workers as int) > height,
                    rpb >= 1,
            ;
        }
    }
    bands
}

/// The bytes of `height` rows starting at absolute row `top`, laid out
/// row-major with `width` bytes per row, when the whole image's pixel at
/// row `r` and column `c` is `pix(r, c)`.
pub open spec fn band_bytes(
    top: int,
    height: nat,
    width: nat,
    pix: spec_fn(int, int) -> u8,
) -> Seq<u8> {
    Seq::new(height * width, |k: int| pix(top + k / (width as int), k % (width as int)))
}

/// Adjacent row strips of the same image concatenate to one strip.
proof fn lemma_band_bytes_concat(
    top: int,
    h1: nat,
    h2: nat,
    width: nat,
    pix: spec_fn(int, int) -> u8,
)
    requires
        width >= 1,
    ensures
        band_bytes(top, h1, width, pix) + band_bytes(top + h1, h2, width, pix) == band_bytes(
            top,
            (h1 + h2) as nat,
            width,
            pix,
        ),
{
    let a = band_bytes(top, h1, width, pix);
    let b = band_bytes(top + h1, h2, width, pix);
    let c = band_bytes(top, (h1 + h2) as nat, width, pix);
    assert((h1 + h2) * width == h1 * width + h2 * width) by (nonlinear_arith);
    assert forall|k: int| 0 <= k < c.len() implies (a + b)[k] == c[k] by {
        if k < h1 * width {
            assert((a + b)[k] == a[k]);
        } else {
            let k2 = k - h1 * width;
            lemma_fundamental_div_mod(k2, width as int);
            lemma_mod_bound(k2, width as int);
            assert(k == ((h1 as int) + k2 / (width as int)) * (width as int) + k2 % (
            width as int)) by (nonlinear_arith)
                requires
                    k2 == k - h1 * width,
                    k2 == (width as int) * (k2 / (width as int)) + k2 % (width as int),
            ;
            lemma_fundamental_div_mod_converse(
                k,
                width as int,
                (h1 as int) + k2 / (width as int),
                k2 % (width as int),
            );
            assert((a + b)[k] == b[k2]);
        }
    }
    assert(a + b =~= c);
}

/// In the full raster (rows `0 .. height`), the byte at the row-major
/// position of pixel `(x, y)` is exactly the image function's value at
/// row `y`, column `x`.
pub proof fn lemma_raster_pixel(
    height: nat,
    width: nat,
    pix: spec_fn(int, int) -> u8,
    x: int,
    y: int,
)
    requires
        width >= 1,
        0 <= x < width,
        0 <= y < height,
    ensures
        band_bytes(0, height, width, pix)[crate::raster::pixel_index(width as int, x, y)] == pix(
            y,
            x,
        ),
{
    assert(0 <= y * width + x && y * width + x < height * width) by (nonlinear_arith)
        requires
            0 <= x < width,
            0 <= y < height,
    ;
    lemma_fundamental_div_mod_converse(y * width + x, width as int, y, x);
}

/// Bytes that agree position by position with the image function over a
/// band's rows are exactly that band's bytes; this ties a rendered
/// band's pointwise contract to the assembly laws below.
pub proof fn lemma_band_bytes_pointwise(
    bytes: Seq<u8>,
    top: int,
    height: nat,
    width: nat,
    pix: spec_fn(int, int) -> u8,
)
    requires
        bytes.len() == height * width,
        forall|k: int|
            0 <= k < bytes.len() ==> #[trigger] bytes[k] == pix(
                top + k / (width as int),
                k % (width as int),
            ),
    ensures
        bytes == band_bytes(top, height, width, pix),
{
    assert(bytes =~= band_bytes(top, height, width, pix));
}

/// The bytes of the band buffers laid end to end.
pub open spec fn joined(parts: Seq<Seq<u8>>) -> Seq<u8>
    decreases parts.len(),
{
    if parts.len() == 0 {
        Seq::empty()
    } else {
        parts.first() + joined(parts.drop_first())
    }
}

proof fn lemma_joined_push(parts: Seq<Seq<u8>>, p: Seq<u8>)
    ensures
        joined(parts.push(p)) == joined(parts) + p,
    decreases parts.len(),
{
    if parts.len() == 0 {
        assert(parts.push(p).drop_first() =~= Seq::<Seq<u8>>::empty());
        assert(parts.push(p).first() == p);
        assert(joined(Seq::<Seq<u8>>::empty()) == Seq::<u8>::empty());
        assert(joined(parts) == Seq::<u8>::empty());
        assert(joined(parts.push(p)) == p + Seq::<u8>::empty());
        assert(joined(parts.push(p)) =~= joined(parts) + p);
    } else {
        lemma_joined_push(parts.drop_first(), p);
        assert(parts.push(p).drop_first() =~= parts.drop_first().push(p));
        assert(parts.push(p).first() == parts.first());
        assert(joined(parts.push(p)) == parts.first() + joined(parts.drop_first().push(p)));
        assert(joined(parts.push(p)) == parts.first() + (joined(parts.drop_first()) + p));
        assert(parts.first() + (joined(parts.drop_first()) + p) =~= (parts.first() + joined(
            parts.drop_first(),
        )) + p);
        assert(joined(parts) == parts.first() + joined(parts.drop_first()));
    }
}

/// Lay independently rendered band buffers end to end into one raster
/// buffer: the result is exactly the concatenation of the parts.
pub fn assemble(parts: &Vec<Vec<u8>>) -> (buf: Vec<u8>)
    ensures
        buf@ == joined(parts@.map_values(|p: Vec<u8>| p@)),
{
    let mut buf: Vec<u8> = Vec::new();
    let mut i: usize = 0;
    while i < parts.len()
        invariant
            i <= parts@.len(),
            buf@ == joined(parts@.take(i as int).map_values(|p: Vec<u8>| p@)),
        decreases parts@.len() - i,
    {
        proof {
            assert(parts@.take(i + 1).map_values(|p: Vec<u8>| p@) =~= parts@.take(
                i as int,
            ).map_values(|p: Vec<u8>| p@).push(parts@[i as int]@));
            lemma_joined_push(
                parts@.take(i as int).map_values(|p: Vec<u8>| p@),
                parts@[i as int]@,
            );
        }
        let part: &Vec<u8> = &parts[i];
        buf.extend_from_slice(part.as_slice());
        i += 1;
    }
    proof {
        assert(parts@.take(parts@.len() as int) =~= parts@);
    }
    buf
}

/// The assembled buffer is determined by the image alone: however the
/// rows were tiled into bands, when every band's bytes are those of its
/// own rows, the concatenation is exactly the rows `start .. total` of
/// the full raster.
pub proof fn lemma_assembly_determined(
    bands: Seq<Band>,
    parts: Seq<Seq<u8>>,
    start: int,
    total: int,
    width: nat,
    pix: spec_fn(int, int) -> u8,
)
    requires
        width >= 1,
        bands_tile(bands, start, total),
        parts.len() == bands.len(),
        forall|i: int|
            0 <= i < bands.len() ==> #[trigger] parts[i] == band_bytes(
                bands[i].top as int,
                bands[i].height as nat,
                width,
                pix,
            ),
    ensures
        joined(parts) == band_bytes(start, (total - start) as nat, width, pix),
    decreases bands.len(),
{
    lemma_tile_bounds(bands, start, total);
    if bands.len() == 0 {
        assert(total == start);
        assert(joined(parts) == Seq::<u8>::empty());
        assert(((total - start) as nat) * width == 0) by (nonlinear_arith)
            requires
                total == start,
        ;
        assert(band_bytes(start, (total - start) as nat, width, pix).len() == 0);
        assert(joined(parts) =~= band_bytes(start, (total - start) as nat, width, pix));
    } else {
        let h0 = bands.first().height as nat;
        lemma_tile_bounds(bands.drop_first(), start + h0, total);
        assert forall|i: int| 0 <= i < bands.drop_first().len() implies #[trigger] parts.drop_first()[i]
            == band_bytes(
            bands.drop_first()[i].top as int,
            bands.drop_first()[i].height as nat,
            width,
            pix,
        ) by {
            assert(parts.drop_first()[i] == parts[i + 1]);
            assert(bands.drop_first()[i] == bands[i + 1]);
        }
        lemma_assembly_determined(
            bands.drop_first(),
            parts.drop_first(),
            start + h0,
            total,
            width,
            pix,
        );
        lemma_band_bytes_concat(start, h0, (total - start - h0) as nat, width, pix);
        assert(parts.first() == band_bytes(start, h0, width, pix));
        assert(joined(parts) == parts.first() + joined(parts.drop_first()));
    }
}

/// Rendering is independent of the tiling: two renders of the same image
/// function, each tiled into bands in its own way (say, with different
/// worker counts), assemble to byte-identical buffers.
pub proof fn lemma_render_independent_of_tiling(
    bands1: Seq<Band>,
    parts1: Seq<Seq<u8>>,
    bands2: Seq<Band>,
    parts2: Seq<Seq<u8>>,
    total: int,
    width: nat,
    pix: spec_fn(int, int) -> u8,
)
    requires
        width >= 1,
        bands_tile(bands1, 0, total),
        bands_tile(bands2, 0, total),
        parts1.len() == bands1.len(),
        parts2.len() == bands2.len(),
        forall|i: int|
            0 <= i < bands1.len() ==> #[trigger] parts1[i] == band_bytes(
                bands1[i].top as int,
                bands1[i].height as nat,
                width,
                pix,
            ),
        forall|i: int|
            0 <= i < bands2.len() ==> #[trigger] parts2[i] == band_bytes(
                bands2[i].top as int,
                bands2[i].height as nat,
                width,
                pix,
            ),
    ensures
        joined(parts1) == joined(parts2),
{
    lemma_assembly_determined(bands1, parts1, 0, total, width, pix);
    lemma_assembly_determined(bands2, parts2, 0, total, width, pix);
}

} // verus!
