//! The gray-level picture that decoded lines are painted on.
//!
//! The pixels live in an `image::GrayImage`. Verus cannot look inside that
//! type, so this module names its contents ([`raster_rows`]) and states what
//! the few methods used here do to them. [`Canvas`] is the verified layer on
//! top: it knows its own dimensions and drops writes that fall outside them.

use vstd::prelude::*;

verus! {

/// An `image::GrayImage` (one byte per pixel, backed by a `Vec<u8>`).
///
/// Trusted: Verus never sees the field. The only way to make one is
/// [`blank`], so the buffer always holds exactly width × height bytes.
#[verifier::external_body]
pub struct Raster {
    image: image::GrayImage,
}

/// The pixels of a raster: one sequence per row, top row first, each row
/// from left to right.
pub uninterp spec fn raster_rows(raster: Raster) -> Seq<Seq<u8>>;

/// `image::ImageBuffer::new`: a buffer of the given dimensions with every
/// pixel zero. The outside function panics when the byte count does not fit a
/// `Vec`, which the precondition rules out.
#[verifier::external_body]
fn blank(width: u32, height: u32) -> (raster: Raster)
    requires
        width * height <= isize::MAX,
    ensures
        raster_rows(raster) == Seq::new(height as nat, |y: int| Seq::new(width as nat, |x: int| 0u8)),
{
    Raster { image: image::GrayImage::new(width, height) }
}

/// `image::ImageBuffer::put_pixel`: overwrites the pixel at column `x` of row
/// `y` and nothing else. The outside function panics on a position outside
/// the image, which the precondition rules out.
#[verifier::external_body]
fn put(raster: &mut Raster, x: u32, y: u32, gray: u8)
    requires
        y < raster_rows(*old(raster)).len(),
        x < raster_rows(*old(raster))[y as int].len(),
    ensures
        raster_rows(*final(raster)) == raster_rows(*old(raster)).update(
            y as int,
            raster_rows(*old(raster))[y as int].update(x as int, gray),
        ),
    no_unwind
{
    raster.image.put_pixel(x, y, image::Luma([gray]));
}

/// `image::ImageBuffer::get_pixel`: the gray level at column `x` of row `y`.
/// The outside function panics on a position outside the image, which the
/// precondition rules out.
#[verifier::external_body]
fn get(raster: &Raster, x: u32, y: u32) -> (gray: u8)
    requires
        y < raster_rows(*raster).len(),
        x < raster_rows(*raster)[y as int].len(),
    ensures
        gray == raster_rows(*raster)[y as int][x as int],
{
    raster.image.get_pixel(x, y).0[0]
}

/// `image::ImageBuffer::as_raw`, copied: the bytes of the buffer, which for a
/// one-byte-per-pixel image are the rows laid end to end.
#[verifier::external_body]
fn raw(raster: &Raster) -> (bytes: Vec<u8>)
    ensures
        bytes@ == raster_rows(*raster).flatten(),
{
    raster.image.as_raw().clone()
}

/// `rows` with the pixel at column `x` of row `y` set to `gray`; unchanged
/// when the position lies outside `rows`.
pub open spec fn painted(rows: Seq<Seq<u8>>, x: int, y: int, gray: u8) -> Seq<Seq<u8>> {
    if 0 <= y < rows.len() && 0 <= x < rows[y].len() {
        rows.update(y, rows[y].update(x, gray))
    } else {
        rows
    }
}

/// Whether `rows` is a `width` × `height` grid.
pub open spec fn is_grid(rows: Seq<Seq<u8>>, width: nat, height: nat) -> bool {
    &&& rows.len() == height
    &&& forall|y: int| 0 <= y < height ==> (#[trigger] rows[y]).len() == width
}

/// Where the pixel at column `x` of row `y` sits when rows of `width`
/// pixels are laid end to end.
pub open spec fn offset(width: nat, x: int, y: int) -> int {
    y * width + x
}

/// Laying the rows of a grid end to end puts each pixel at its [`offset`].
pub proof fn lemma_grid_row_major(rows: Seq<Seq<u8>>, width: nat, height: nat)
    requires
        is_grid(rows, width, height),
    ensures
        rows.flatten().len() == height * width,
        forall|y: int, x: int|
            0 <= y < height && 0 <= x < width ==> {
                &&& 0 <= #[trigger] offset(width, x, y) < height * width
                &&& rows.flatten()[offset(width, x, y)] == rows[y][x]
            },
    decreases height,
{
    if height == 0 {
        assert(rows.flatten() =~= Seq::<u8>::empty());
        assert(height * width == 0) by (nonlinear_arith)
            requires
                height == 0,
        ;
    } else {
        let rest = rows.drop_first();
        let tail = rest.flatten();
        lemma_grid_row_major(rest, width, (height - 1) as nat);
        assert(rows.flatten() == rows.first() + tail);
        assert(rows.first().len() == width);
        assert(height * width == width + (height - 1) * width) by (nonlinear_arith);
        assert forall|y: int, x: int| 0 <= y < height && 0 <= x < width implies {
            &&& 0 <= #[trigger] offset(width, x, y) < height * width
            &&& rows.flatten()[offset(width, x, y)] == rows[y][x]
        } by {
            assert(0 <= y * width + x < height * width) by (nonlinear_arith)
                requires
                    0 <= y < height,
                    0 <= x < width,
            ;
            if y == 0 {
                assert(y * width + x == x) by (nonlinear_arith)
                    requires
                        y == 0,
                ;
                assert(rows.flatten()[x] == rows.first()[x]);
            } else {
                let i = offset(width, x, y - 1);
                assert(y * width + x == width + i) by (nonlinear_arith)
                    requires
                        i == (y - 1) * width + x,
                ;
                assert(rest[y - 1][x] == rows[y][x]);
                assert(0 <= i < tail.len() && tail[i] == rest[y - 1][x]);
                assert(rows.flatten()[width + i] == tail[i]);
            }
        }
    }
}

/// A picture of fixed dimensions, one gray level per pixel, all black at
/// first. Writes outside the picture are dropped.
pub struct Canvas {
    raster: Raster,
    width: u32,
    height: u32,
}

impl View for Canvas {
    type V = Seq<Seq<u8>>;

    /// The rows of the picture, top row first.
    closed spec fn view(&self) -> Seq<Seq<u8>> {
        raster_rows(self.raster)
    }
}

impl Canvas {
    #[verifier::type_invariant]
    spec fn inv(self) -> bool {
        is_grid(raster_rows(self.raster), self.width as nat, self.height as nat)
    }

    /// Number of pixels per row.
    pub closed spec fn cols(self) -> nat {
        self.width as nat
    }

    /// Number of rows.
    pub closed spec fn lines(self) -> nat {
        self.height as nat
    }

    /// A black picture of `width` × `height` pixels.
    pub fn new(width: u32, height: u32) -> (canvas: Canvas)
        requires
            width * height <= isize::MAX,
        ensures
            canvas.cols() == width,
            canvas.lines() == height,
            canvas@ == Seq::new(height as nat, |y: int| Seq::new(width as nat, |x: int| 0u8)),
    {
        Canvas { raster: blank(width, height), width, height }
    }

    /// Number of pixels per row; every row of the view has that length.
    pub fn width(&self) -> (w: u32)
        ensures
            w == self.cols(),
            is_grid(self@, self.cols(), self.lines()),
    {
        proof {
            use_type_invariant(self);
        }
        self.width
    }

    /// Number of rows.
    pub fn height(&self) -> (h: u32)
        ensures
            h == self.lines(),
            is_grid(self@, self.cols(), self.lines()),
    {
        proof {
            use_type_invariant(self);
        }
        self.height
    }

    /// Sets the pixel at column `x` of row `y`; a position outside the
    /// picture is silently ignored.
    pub fn set_pixel(&mut self, x: u32, y: u32, gray: u8)
        ensures
            final(self).cols() == old(self).cols(),
            final(self).lines() == old(self).lines(),
            final(self)@ == painted(old(self)@, x as int, y as int, gray),
        no_unwind
    {
        proof {
            use_type_invariant(&*self);
        }
        if x < self.width && y < self.height {
            put(&mut self.raster, x, y, gray);
        }
    }

    /// The gray level at column `x` of row `y`, or `None` outside the picture.
    pub fn pixel(&self, x: u32, y: u32) -> (gray: Option<u8>)
        ensures
            gray == (if x < self.cols() && y < self.lines() {
                Some(self@[y as int][x as int])
            } else {
                None
            }),
    {
        proof {
            use_type_invariant(self);
        }
        if x < self.width && y < self.height {
            Some(get(&self.raster, x, y))
        } else {
            None
        }
    }

    /// The whole picture as bytes, rows laid end to end from the top.
    pub fn to_bytes(&self) -> (bytes: Vec<u8>)
        ensures
            bytes@ == self@.flatten(),
            bytes@.len() == self.lines() * self.cols(),
            forall|y: int, x: int|
                0 <= y < self.lines() && 0 <= x < self.cols() ==> {
                    &&& 0 <= #[trigger] offset(self.cols(), x, y) < bytes@.len()
                    &&& bytes@[offset(self.cols(), x, y)] == self@[y][x]
                },
    {
        proof {
            use_type_invariant(self);
            lemma_grid_row_major(self@, self.cols(), self.lines());
        }
        raw(&self.raster)
    }
}

} // verus!
