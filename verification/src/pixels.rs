//! The pixel buffer that the codec reads: rows of RGBA texels, four bytes
//! each, top row first.

use vstd::prelude::*;

verus! {

/// Bytes per texel: red, green, blue, alpha.
pub const CHANNELS: usize = 4;

/// A colour of three 8-bit channels.
#[derive(Clone, Copy, Debug, PartialEq, Eq, Structural)]
pub struct Rgb {
    pub r: u8,
    pub g: u8,
    pub b: u8,
}

/// An image of `width * height` texels. The alpha byte is carried but never
/// read: every texel counts as opaque.
#[derive(Debug)]
pub struct PixelBuffer {
    width: usize,
    height: usize,
    data: Vec<u8>,
}

/// A decoded image of the `image` crate. Nothing of its inside is known
/// here; it is only handed on to the functions that read it.
#[verifier::external_type_specification]
#[verifier::external_body]
pub struct ExDynamicImage(image::DynamicImage);

/// The width and the height, in pixels, of a decoded image: what
/// `GenericImageView::dimensions` reads from it.
pub uninterp spec fn image_size(img: image::DynamicImage) -> (u32, u32);

/// The bytes of a decoded image as 8-bit RGBA: the buffer that
/// `DynamicImage::to_rgba8` makes of it, as `ImageBuffer::into_raw` hands it
/// out. An image made from a buffer longer than its size asks for keeps the
/// bytes beyond.
pub uninterp spec fn image_rgba8(img: image::DynamicImage) -> Seq<u8>;

/// `GenericImageView::dimensions` of a `DynamicImage`: its width and its
/// height in pixels, which the image holds and which are the same whenever
/// they are asked for. Nothing is claimed of the two numbers themselves.
#[verifier::external_body]
fn image_dimensions(img: &image::DynamicImage) -> (size: (u32, u32))
    ensures
        size == image_size(*img),
{
    image::GenericImageView::dimensions(img)
}

/// `DynamicImage::to_rgba8` followed by `ImageBuffer::into_raw`: a copy of the
/// image as 8-bit RGBA, as one vector of bytes. The bytes depend on the image
/// alone. Nothing else is claimed of them, not even how many they are:
/// `PixelBuffer::new` counts them.
#[verifier::external_body]
fn image_rgba8_bytes(img: &image::DynamicImage) -> (bytes: Vec<u8>)
    ensures
        bytes@ == image_rgba8(*img),
{
    img.to_rgba8().into_raw()
}

/// The number of bytes that an image of the given size takes.
pub open spec fn byte_len(width: int, height: int) -> int {
    width * height * CHANNELS as int
}

/// Where channel `c` of the texel in column `x` of row `y` lies in the bytes
/// of an image `width` texels wide.
pub open spec fn byte_index(width: int, x: int, y: int, c: int) -> int {
    (y * width + x) * CHANNELS as int + c
}

impl PixelBuffer {
    /// Width in texels, for use in contracts.
    pub closed spec fn spec_width(&self) -> usize {
        self.width
    }

    /// Height in texels, for use in contracts.
    pub closed spec fn spec_height(&self) -> usize {
        self.height
    }

    /// The bytes, row by row.
    pub closed spec fn bytes(&self) -> Seq<u8> {
        self.data@
    }

    /// The buffer holds exactly four bytes for each texel.
    pub open spec fn wf(&self) -> bool {
        self.bytes().len() == byte_len(self.width() as int, self.height() as int)
    }

    /// The colour of the texel in column `x` of row `y`.
    pub open spec fn spec_rgb_at(&self, x: usize, y: usize) -> Option<Rgb> {
        if x < self.width() && y < self.height() {
            Some(
                Rgb {
                    r: self.bytes()[byte_index(self.width() as int, x as int, y as int, 0)],
                    g: self.bytes()[byte_index(self.width() as int, x as int, y as int, 1)],
                    b: self.bytes()[byte_index(self.width() as int, x as int, y as int, 2)],
                },
            )
        } else {
            None
        }
    }

    /// Whether the image has no texels.
    pub open spec fn spec_is_empty(&self) -> bool {
        self.width() == 0 || self.height() == 0
    }

    /// Makes an image of the given size from its bytes. Succeeds exactly when
    /// there are `width * height * 4` of them.
    pub fn new(width: usize, height: usize, data: Vec<u8>) -> (made: Option<PixelBuffer>)
        ensures
            made is Some <==> data@.len() == byte_len(width as int, height as int),
            made matches Some(buffer) ==> buffer.wf() && buffer.width() == width && buffer.height()
                == height && buffer.bytes() == data@,
    {
        let ghost texel_count = width as int * height as int;
        assert(0 <= texel_count <= byte_len(width as int, height as int)) by (nonlinear_arith)
            requires
                texel_count == width as int * height as int,
                byte_len(width as int, height as int) == texel_count * 4,
                0 <= width,
                0 <= height,
        ;
        let given = data.len();
        let texels = match width.checked_mul(height) {
            Some(n) => n,
            None => {
                return None;
            },
        };
        let wanted = match texels.checked_mul(CHANNELS) {
            Some(n) => n,
            None => {
                return None;
            },
        };
        if given == wanted {
            Some(PixelBuffer { width, height, data })
        } else {
            None
        }
    }

    /// Takes the size and the pixels of a decoded image, converted to 8-bit
    /// RGBA. Succeeds exactly when the converted image holds four bytes for
    /// each of its pixels; the buffer then has the size of the image and its
    /// bytes.
    pub fn from_image(img: &image::DynamicImage) -> (made: Option<PixelBuffer>)
        ensures
            made is Some <==> image_rgba8(*img).len() == byte_len(
                image_size(*img).0 as int,
                image_size(*img).1 as int,
            ),
            made matches Some(buffer) ==> buffer.wf() && buffer.width() == image_size(*img).0
                && buffer.height() == image_size(*img).1 && buffer.bytes() == image_rgba8(*img),
    {
        let (width, height) = image_dimensions(img);
        let bytes = image_rgba8_bytes(img);
        PixelBuffer::new(width as usize, height as usize, bytes)
    }

    /// Width in texels.
    #[verifier::when_used_as_spec(spec_width)]
    pub fn width(&self) -> (n: usize)
        ensures
            n == self.spec_width(),
    {
        self.width
    }

    /// Height in texels.
    #[verifier::when_used_as_spec(spec_height)]
    pub fn height(&self) -> (n: usize)
        ensures
            n == self.spec_height(),
    {
        self.height
    }

    /// Whether the image has no texels.
    #[verifier::when_used_as_spec(spec_is_empty)]
    pub fn is_empty(&self) -> (empty: bool)
        ensures
            empty == self.spec_is_empty(),
    {
        self.width == 0 || self.height == 0
    }

    /// The colour of the texel in column `x` of row `y`, or `None` where the
    /// image has no such texel.
    #[verifier::when_used_as_spec(spec_rgb_at)]
    pub fn rgb_at(&self, x: usize, y: usize) -> (colour: Option<Rgb>)
        requires
            self.wf(),
        ensures
            colour == self.spec_rgb_at(x, y),
            colour is Some <==> x < self.width() && y < self.height(),
    {
        if x < self.width && y < self.height {
            proof {
                lemma_byte_index_in_bounds(
                    self.width as int,
                    self.height as int,
                    x as int,
                    y as int,
                );
            }
            let len = self.data.len();
            assert(len == byte_len(self.width as int, self.height as int));
            assert(byte_index(self.width as int, x as int, y as int, 3) < len);
            let base = (y * self.width + x) * CHANNELS;
            Some(Rgb { r: self.data[base], g: self.data[base + 1], b: self.data[base + 2] })
        } else {
            None
        }
    }
}

/// Every channel of every texel of an image lies within its bytes.
pub proof fn lemma_byte_index_in_bounds(width: int, height: int, x: int, y: int)
    requires
        0 <= x < width,
        0 <= y < height,
    ensures
        0 <= y * width,
        y * width + x < width * height,
        0 <= byte_index(width, x, y, 0),
        byte_index(width, x, y, 3) < byte_len(width, height),
{
    assert(0 <= y * width && (y + 1) * width <= height * width && (y + 1) * width == y * width
        + width && height * width == width * height) by (nonlinear_arith)
        requires
            0 <= y < height,
            0 <= width,
    ;
}

} // verus!
