//! The output raster: a grid of pixels addressed by column and row.
//!
//! The pixel type is left open; the renderer stores colors in it. Pixels are
//! kept column by column, the pixel at `(col, row)` at `col * height + row`.
use vstd::prelude::*;

verus! {

pub struct Canvas<P> {
    data: Vec<P>,
    width: usize,
    height: usize,
}

/// Position of pixel `(col, row)` in the storage of a raster `height` rows high.
pub open spec fn slot(height: int, col: int, row: int) -> int {
    col * height + row
}

proof fn lemma_slot_in_range(width: int, height: int, col: int, row: int)
    requires
        0 <= col < width,
        0 <= row < height,
    ensures
        0 <= slot(height, col, row) < width * height,
        slot(height, col, row) + 1 <= (col + 1) * height,
{
    assert(col * height + row < (col + 1) * height) by (nonlinear_arith)
        requires
            0 <= row < height,
    ;
    assert((col + 1) * height <= width * height) by (nonlinear_arith)
        requires
            col + 1 <= width,
            0 <= height,
    ;
    assert(0 <= col * height) by (nonlinear_arith)
        requires
            0 <= col,
            0 <= height,
    ;
}

impl<P> Canvas<P> {
    #[verifier::type_invariant]
    closed spec fn inv(self) -> bool {
        &&& self.data@.len() == self.width * self.height
        &&& self.width * self.height <= usize::MAX
    }

    pub closed spec fn spec_width(&self) -> usize {
        self.width
    }

    pub closed spec fn spec_height(&self) -> usize {
        self.height
    }

    /// The pixel at `(col, row)`.
    pub closed spec fn pixel(&self, col: int, row: int) -> P {
        self.data@[slot(self.height as int, col, row)]
    }

    #[verifier::when_used_as_spec(spec_width)]
    pub fn width(&self) -> (r: usize)
        ensures
            r == self.spec_width(),
    {
        self.width
    }

    #[verifier::when_used_as_spec(spec_height)]
    pub fn height(&self) -> (r: usize)
        ensures
            r == self.spec_height(),
    {
        self.height
    }
}

impl<P: Copy> Canvas<P> {
    /// A `width` by `height` raster with every pixel set to `background`.
    pub fn new(width: usize, height: usize, background: P) -> (r: Canvas<P>)
        requires
            width * height <= usize::MAX,
        ensures
            r.spec_width() == width,
            r.spec_height() == height,
            forall|col: int, row: int|
                0 <= col < width && 0 <= row < height ==> #[trigger] r.pixel(col, row)
                    == background,
    {
        let n = width * height;
        let mut data: Vec<P> = Vec::new();
        while data.len() < n
            invariant
                data@.len() <= n,
                forall|k: int| 0 <= k < data@.len() ==> data@[k] == background,
            decreases n - data@.len(),
        {
            data.push(background);
        }
        let r = Canvas { data, width, height };
        proof {
            assert forall|col: int, row: int|
                0 <= col < width && 0 <= row < height implies #[trigger] r.pixel(col, row)
                == background by {
                lemma_slot_in_range(width as int, height as int, col, row);
            }
        }
        r
    }

    /// The raster whose pixel `(col, row)` is `shade(col, row)`, for every
    /// column below `width` and row below `height`.
    pub fn from_fn<F: Fn(usize, usize) -> P>(width: usize, height: usize, shade: F) -> (r: Canvas<P>)
        requires
            width * height <= usize::MAX,
            forall|col: usize, row: usize|
                col < width && row < height ==> #[trigger] shade.requires((col, row)),
        ensures
            r.spec_width() == width,
            r.spec_height() == height,
            forall|col: usize, row: usize|
                col < width && row < height ==> shade.ensures(
                    (col, row),
                    #[trigger] r.pixel(col as int, row as int),
                ),
    {
        let mut data: Vec<P> = Vec::new();
        let mut col: usize = 0;
        while col < width
            invariant
                col <= width,
                width * height <= usize::MAX,
                forall|c: usize, w: usize| c < width && w < height ==> #[trigger] shade.requires((c, w)),
                data@.len() == col * height,
                forall|c: usize, w: usize|
                    c < col && w < height ==> shade.ensures(
                        (c, w),
                        #[trigger] data@[slot(height as int, c as int, w as int)],
                    ),
            decreases width - col,
        {
            let mut row: usize = 0;
            while row < height
                invariant
                    col < width,
                    row <= height,
                    width * height <= usize::MAX,
                    forall|c: usize, w: usize| c < width && w < height ==> #[trigger] shade.requires((c, w)),
                    data@.len() == col * height + row,
                    forall|c: usize, w: usize|
                        c < col && w < height ==> shade.ensures(
                            (c, w),
                            #[trigger] data@[slot(height as int, c as int, w as int)],
                        ),
                    forall|w: usize|
                        w < row ==> shade.ensures(
                            (col, w),
                            #[trigger] data@[slot(height as int, col as int, w as int)],
                        ),
                decreases height - row,
            {
                let ghost before = data@;
                let p = shade(col, row);
                data.push(p);
                proof {
                    assert forall|c: usize, w: usize| c < col && w < height implies shade.ensures(
                        (c, w),
                        #[trigger] data@[slot(height as int, c as int, w as int)],
                    ) by {
                        lemma_slot_in_range(col as int, height as int, c as int, w as int);
                        assert(data@[slot(height as int, c as int, w as int)] == before[slot(
                            height as int,
                            c as int,
                            w as int,
                        )]);
                    }
                }
                row = row + 1;
            }
            proof {
                assert((col + 1) * height == col * height + height) by (nonlinear_arith);
            }
            col = col + 1;
        }
        let r = Canvas { data, width, height };
        r
    }

    pub fn get(&self, col: usize, row: usize) -> (r: P)
        requires
            col < self.spec_width(),
            row < self.spec_height(),
        ensures
            r == self.pixel(col as int, row as int),
    {
        proof {
            use_type_invariant(self);
            lemma_slot_in_range(self.width as int, self.height as int, col as int, row as int);
        }
        self.data[col * self.height + row]
    }

    /// Writes one pixel; every other pixel keeps its value.
    pub fn set(&mut self, col: usize, row: usize, color: P)
        requires
            col < old(self).spec_width(),
            row < old(self).spec_height(),
        ensures
            final(self).spec_width() == old(self).spec_width(),
            final(self).spec_height() == old(self).spec_height(),
            final(self).pixel(col as int, row as int) == color,
            forall|c: int, w: int|
                0 <= c < old(self).spec_width() && 0 <= w < old(self).spec_height() && (c, w) != (
                    col as int,
                    row as int,
                ) ==> #[trigger] final(self).pixel(c, w) == old(self).pixel(c, w),
    {
        proof {
            use_type_invariant(&*self);
            lemma_slot_in_range(self.width as int, self.height as int, col as int, row as int);
        }
        let i = col * self.height + row;
        self.data[i] = color;
        proof {
            assert forall|c: int, w: int|
                0 <= c < self.width && 0 <= w < self.height && (c, w) != (col as int, row as int)
                    implies #[trigger] self.pixel(c, w) == old(self).pixel(c, w) by {
                lemma_slot_in_range(self.width as int, self.height as int, c, w);
                lemma_slot_distinct(self.height as int, c, w, col as int, row as int);
            }
        }
    }
}

proof fn lemma_slot_distinct(height: int, c1: int, r1: int, c2: int, r2: int)
    requires
        0 <= c1,
        0 <= c2,
        0 <= r1 < height,
        0 <= r2 < height,
        (c1, r1) != (c2, r2),
    ensures
        slot(height, c1, r1) != slot(height, c2, r2),
{
    if c1 == c2 {
    } else if c1 < c2 {
        assert(c1 * height + r1 < c2 * height + r2) by (nonlinear_arith)
            requires
                c1 + 1 <= c2,
                0 <= r1 < height,
                0 <= r2,
        ;
    } else {
        assert(c2 * height + r2 < c1 * height + r1) by (nonlinear_arith)
            requires
                c2 + 1 <= c1,
                0 <= r2 < height,
                0 <= r1,
        ;
    }
}

} // verus!
