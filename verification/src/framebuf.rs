use vstd::prelude::*;

verus! {

/// One pixel of a frame, quantized to eight bits per channel.
#[derive(Debug, Clone, Copy, PartialEq, Eq, Structural)]
pub struct Rgb8 {
    pub r: u8,
    pub g: u8,
    pub b: u8,
}

/// Channel `c` of a pixel: 0 is red, 1 green, 2 blue.
pub open spec fn channel(p: Rgb8, c: int) -> u8 {
    if c == 0 {
        p.r
    } else if c == 1 {
        p.g
    } else {
        p.b
    }
}

/// Where channel `c` of pixel `(x, y)` stands in a row-major RGB buffer of
/// rows `width` pixels wide.
pub open spec fn byte_index(width: int, x: int, y: int, c: int) -> int {
    (y * width + x) * 3 + c
}

/// `rows` all have `width` pixels.
pub open spec fn rows_of_width(rows: Seq<Vec<Rgb8>>, width: int) -> bool {
    forall|y: int| 0 <= y < rows.len() ==> (#[trigger] rows[y])@.len() == width
}

/// `bytes` is the row-major RGB encoding of `rows`, each `width` pixels wide:
/// three bytes per pixel, red first, rows from the top.
pub open spec fn encodes_rows(bytes: Seq<u8>, rows: Seq<Vec<Rgb8>>, width: int) -> bool {
    &&& bytes.len() == rows.len() * width * 3
    &&& forall|y: int, x: int, c: int|
        0 <= y < rows.len() && 0 <= x < width && 0 <= c < 3 ==>
            bytes[#[trigger] byte_index(width, x, y, c)] == channel(rows[y]@[x], c)
}

proof fn lemma_byte_index_bounds(width: int, x: int, y: int, c: int)
    requires
        0 <= x < width,
        0 <= y,
        0 <= c < 3,
    ensures
        (y * width) * 3 <= byte_index(width, x, y, c) < (y * width + width) * 3,
        y * width + width == (y + 1) * width,
        0 <= y * width,
{
    assert(y * width + width == (y + 1) * width) by (nonlinear_arith);
    assert(0 <= y * width) by (nonlinear_arith)
        requires
            0 <= y,
            0 <= width,
    ;
}

proof fn lemma_earlier_rows_below(width: int, yy: int, y: int)
    requires
        0 <= yy < y,
        0 <= width,
    ensures
        yy * width + width <= y * width,
{
    assert(yy * width + width <= y * width) by (nonlinear_arith)
        requires
            0 <= yy < y,
            0 <= width,
    ;
}

proof fn lemma_frame_len_step(width: int, y: int)
    ensures
        (y * width + width) * 3 == (y + 1) * width * 3,
{
    assert((y * width + width) * 3 == (y + 1) * width * 3) by (nonlinear_arith);
}

/// The row-major RGB bytes of a frame made of `rows`, each `width` pixels
/// wide: three bytes per pixel, red first, rows from the top.
pub fn encode_frame(width: usize, rows: &Vec<Vec<Rgb8>>) -> (bytes: Vec<u8>)
    requires
        rows_of_width(rows@, width as int),
        rows.len() * width * 3 <= usize::MAX,
    ensures
        encodes_rows(bytes@, rows@, width as int),
        bytes@.len() == rows.len() * width * 3,
        forall|y: int, x: int|
            0 <= y < rows.len() && 0 <= x < width ==> {
                &&& bytes@[(y * width + x) * 3] == (#[trigger] rows@[y]@[x]).r
                &&& bytes@[(y * width + x) * 3 + 1] == rows@[y]@[x].g
                &&& bytes@[(y * width + x) * 3 + 2] == rows@[y]@[x].b
            },
{
    let mut bytes: Vec<u8> = Vec::new();
    let mut y: usize = 0;
    let ghost w = width as int;
    proof {
        assert(0 * w * 3 == 0) by (nonlinear_arith);
    }
    while y < rows.len()
        invariant
            y <= rows.len(),
            w == width as int,
            rows_of_width(rows@, w),
            rows.len() * w * 3 <= usize::MAX,
            bytes@.len() == y * w * 3,
            forall|yy: int, x: int, c: int|
                0 <= yy < y && 0 <= x < w && 0 <= c < 3 ==>
                    bytes@[#[trigger] byte_index(w, x, yy, c)] == channel(rows@[yy]@[x], c),
        decreases rows.len() - y,
    {
        let row = &rows[y];
        assert(row@.len() == w);
        proof {
            assert((y + 1) * w * 3 <= rows.len() * w * 3) by (nonlinear_arith)
                requires
                    y + 1 <= rows.len(),
                    0 <= w,
            ;
            lemma_frame_len_step(w, y as int);
            assert(y * w * 3 == (y * w) * 3) by (nonlinear_arith);
        }
        let mut x: usize = 0;
        while x < width
            invariant
                y < rows.len(),
                x <= width,
                w == width as int,
                row@ == rows@[y as int]@,
                row@.len() == w,
                (y * w + w) * 3 <= usize::MAX,
                bytes@.len() == (y * w + x) * 3,
                0 <= y * w,
                forall|yy: int, xx: int, c: int|
                    0 <= yy < y && 0 <= xx < w && 0 <= c < 3 ==>
                        bytes@[#[trigger] byte_index(w, xx, yy, c)] == channel(rows@[yy]@[xx], c),
                forall|xx: int, c: int|
                    0 <= xx < x && 0 <= c < 3 ==>
                        bytes@[#[trigger] byte_index(w, xx, y as int, c)] == channel(rows@[y as int]@[xx], c),
            decreases width - x,
        {
            let p = row[x];
            let ghost before = bytes@;
            bytes.push(p.r);
            bytes.push(p.g);
            bytes.push(p.b);
            proof {
                assert forall|yy: int, xx: int, c: int|
                    0 <= yy < y && 0 <= xx < w && 0 <= c < 3 implies
                        bytes@[#[trigger] byte_index(w, xx, yy, c)] == channel(rows@[yy]@[xx], c) by {
                    lemma_byte_index_bounds(w, xx, yy, c);
                    lemma_earlier_rows_below(w, yy, y as int);
                    assert(bytes@[byte_index(w, xx, yy, c)] == before[byte_index(w, xx, yy, c)]);
                }
                assert forall|xx: int, c: int|
                    0 <= xx < x + 1 && 0 <= c < 3 implies
                        bytes@[#[trigger] byte_index(w, xx, y as int, c)] == channel(rows@[y as int]@[xx], c) by {
                    if xx < x {
                        assert(bytes@[byte_index(w, xx, y as int, c)] == before[byte_index(w, xx, y as int, c)]);
                    }
                }
            }
            x = x + 1;
        }
        proof {
            lemma_frame_len_step(w, y as int);
        }
        y = y + 1;
    }
    proof {
        lemma_pixel_bytes(bytes@, rows@, w);
    }
    bytes
}

/// In an encoded frame the pixel in column `x` of row `y` is the three bytes
/// from `(y * width + x) * 3` on: its red, green and blue, in that order, for
/// every width, row and column.
pub proof fn lemma_pixel_bytes(bytes: Seq<u8>, rows: Seq<Vec<Rgb8>>, width: int)
    requires
        encodes_rows(bytes, rows, width),
    ensures
        bytes.len() == rows.len() * width * 3,
        forall|y: int, x: int|
            0 <= y < rows.len() && 0 <= x < width ==> {
                &&& bytes[(y * width + x) * 3] == (#[trigger] rows[y]@[x]).r
                &&& bytes[(y * width + x) * 3 + 1] == rows[y]@[x].g
                &&& bytes[(y * width + x) * 3 + 2] == rows[y]@[x].b
            },
{
    assert forall|y: int, x: int| 0 <= y < rows.len() && 0 <= x < width implies {
        &&& bytes[(y * width + x) * 3] == (#[trigger] rows[y]@[x]).r
        &&& bytes[(y * width + x) * 3 + 1] == rows[y]@[x].g
        &&& bytes[(y * width + x) * 3 + 2] == rows[y]@[x].b
    } by {
        assert(bytes[byte_index(width, x, y, 0)] == channel(rows[y]@[x], 0));
        assert(bytes[byte_index(width, x, y, 1)] == channel(rows[y]@[x], 1));
        assert(bytes[byte_index(width, x, y, 2)] == channel(rows[y]@[x], 2));
    }
}

/// Every byte of an encoded frame is one channel of one pixel, so the
/// encoding of a frame is unique: two buffers that both encode `rows` are the
/// same buffer.
pub proof fn lemma_encoding_unique(b1: Seq<u8>, b2: Seq<u8>, rows: Seq<Vec<Rgb8>>, width: int)
    requires
        width >= 0,
        encodes_rows(b1, rows, width),
        encodes_rows(b2, rows, width),
    ensures
        b1 == b2,
{
    assert forall|k: int| 0 <= k < b1.len() implies b1[k] == b2[k] by {
        let q = k / 3;
        let c = k % 3;
        let y = q / width;
        let x = q % width;
        assert(k == q * 3 + c && 0 <= c < 3) by (nonlinear_arith)
            requires
                q == k / 3,
                c == k % 3,
        ;
        assert(width > 0) by (nonlinear_arith)
            requires
                0 <= k < rows.len() * width * 3,
                width >= 0,
        ;
        assert(q == y * width + x) by (nonlinear_arith)
            requires
                width > 0,
                y == q / width,
                x == q % width,
        ;
        assert(0 <= x < width) by (nonlinear_arith)
            requires
                width > 0,
                x == q % width,
        ;
        assert(0 <= q < rows.len() * width) by (nonlinear_arith)
            requires
                0 <= k < rows.len() * width * 3,
                q == k / 3,
        ;
        assert(0 <= y < rows.len()) by (nonlinear_arith)
            requires
                width > 0,
                0 <= q < rows.len() * width,
                y == q / width,
        ;
        assert(byte_index(width, x, y, c) == k);
    }
    assert(b1 =~= b2);
}

/// Which row of the camera's viewport, counted from the bottom, image row
/// `y` shows: images are stored from the top row down while the viewport's
/// vertical axis points up.
pub fn row_from_bottom(height: u32, y: u32) -> (row: u32)
    requires
        y < height,
    ensures
        row == height - 1 - y,
{
    height - 1 - y
}

/// Counting rows from the bottom undoes counting them from the top: the
/// flip maps the rows of a frame one to one onto themselves.
pub proof fn lemma_row_flip_involution(height: int, y: int)
    requires
        0 <= y < height,
    ensures
        0 <= height - 1 - y < height,
        height - 1 - (height - 1 - y) == y,
{
}

/// A rendered frame as an RGB image of the `image` crate
/// (`ImageBuffer<Rgb<u8>, Vec<u8>>`): its width and height and its samples,
/// three bytes per pixel in row-major order.
#[verifier::external_body]
pub struct FrameImage {
    image: image::RgbImage,
}

impl FrameImage {
    /// Calls `ImageBuffer::dimensions`, which returns the width and height
    /// fields that the image was made with.
    #[verifier::external_body]
    pub fn dimensions(&self) -> (dims: (u32, u32))
        ensures
            dims == frame_image_dimensions(*self),
    {
        self.image.dimensions()
    }

    /// Calls `ImageBuffer::into_raw`, which hands back the image's sample
    /// buffer as it holds it.
    #[verifier::external_body]
    pub fn into_samples(self) -> (samples: Vec<u8>)
        ensures
            samples@ == frame_image_samples(self),
    {
        self.image.into_raw()
    }
}

/// The samples that a frame image holds, in the image's own row-major order.
pub uninterp spec fn frame_image_samples(img: FrameImage) -> Seq<u8>;

/// The width and height that a frame image was made with.
pub uninterp spec fn frame_image_dimensions(img: FrameImage) -> (u32, u32);

/// Calls `image::ImageBuffer::<Rgb<u8>, Vec<u8>>::from_raw`. Its source
/// returns an image exactly when three samples per pixel for `width` by
/// `height` pixels fit in `buf` (the count computed with checked arithmetic,
/// so an overflowing count fails too), and the image then keeps `buf` as its
/// samples and the given dimensions.
#[verifier::external_body]
fn rgb_image_from_raw(width: u32, height: u32, buf: Vec<u8>) -> (img: Option<FrameImage>)
    ensures
        img is Some <==> 3 * width * height <= buf@.len(),
        img matches Some(i) ==> frame_image_samples(i) == buf@ && frame_image_dimensions(i) == (width, height),
{
    match image::RgbImage::from_raw(width, height, buf) {
        Some(image) => Some(FrameImage { image }),
        None => None,
    }
}

/// The image of a rendered frame, `width` by `height` pixels, whose pixels are
/// `rows`, each `width` pixels wide, from the top. It is `None` exactly when
/// there are fewer rows than `height` (for a nonzero width), as
/// `ImageBuffer::from_raw` refuses a buffer too short for the frame.
pub fn frame_image(width: u32, height: u32, rows: &Vec<Vec<Rgb8>>) -> (img: Option<FrameImage>)
    requires
        rows_of_width(rows@, width as int),
        rows.len() * width * 3 <= usize::MAX,
    ensures
        img is Some <==> width * height <= width * rows.len(),
        img matches Some(i) ==> {
            &&& frame_image_dimensions(i) == (width, height)
            &&& encodes_rows(frame_image_samples(i), rows@, width as int)
            &&& frame_image_samples(i).len() == rows.len() * width * 3
            &&& forall|y: int, x: int|
                0 <= y < rows.len() && 0 <= x < width ==> {
                    &&& frame_image_samples(i)[(y * width + x) * 3] == (#[trigger] rows@[y]@[x]).r
                    &&& frame_image_samples(i)[(y * width + x) * 3 + 1] == rows@[y]@[x].g
                    &&& frame_image_samples(i)[(y * width + x) * 3 + 2] == rows@[y]@[x].b
                }
        },
{
    let bytes = encode_frame(width as usize, rows);
    proof {
        assert(3 * width * height == (width * height) * 3) by (nonlinear_arith);
        assert(rows.len() * width * 3 == (width * rows.len()) * 3) by (nonlinear_arith);
    }
    rgb_image_from_raw(width, height, bytes)
}

} // verus!
